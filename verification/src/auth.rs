//! Who may use the server: requests carry a shared token, in the
//! `Authorization` header or, for clients that cannot set headers, in the query
//! string.

use vstd::prelude::*;

verus! {

/// What stands behind a prefix.
pub open spec fn behind(s: Seq<char>, prefix: Seq<char>) -> Option<Seq<char>> {
    if prefix.is_prefix_of(s) {
        Some(s.skip(prefix.len() as int))
    } else {
        None
    }
}

/// What stands behind a prefix.
fn strip<'a>(s: &'a str, prefix: &str) -> (r: Option<&'a str>)
    ensures
        crate::icloud::str_view(r) == behind(s@, prefix@),
{
    let len: usize = s.unicode_len();
    let n: usize = prefix.unicode_len();
    if len < n {
        return None;
    }
    let mut i: usize = 0;
    while i < n
        invariant
            0 <= i <= n <= len,
            n == prefix@.len(),
            len == s@.len(),
            forall|j: int| 0 <= j < i ==> s@[j] == #[trigger] prefix@[j],
        decreases n - i,
    {
        if s.get_char(i) != prefix.get_char(i) {
            proof {
                assert(s@[i as int] != prefix@[i as int]);
                if prefix@.is_prefix_of(s@) {
                    assert(prefix@ =~= s@.subrange(0, n as int));
                    assert(prefix@[i as int] == s@.subrange(0, n as int)[i as int]);
                }
            }
            return None;
        }
        i = i + 1;
    }
    let rest = s.substring_char(n, len);
    proof {
        assert(prefix@ =~= s@.subrange(0, n as int));
        assert(rest@ =~= s@.skip(n as int));
    }
    Some(rest)
}

/// Are two texts the same?
fn same(a: &str, b: &str) -> (r: bool)
    ensures
        r == (a@ == b@),
{
    if a.unicode_len() != b.unicode_len() {
        return false;
    }
    proof {
        assert(a@.subrange(0, b@.len() as int) =~= a@);
    }
    strip(a, b).is_some()
}

/// The parameters of a query string, between its ampersands.
pub open spec fn parameters(q: Seq<char>) -> Seq<Seq<char>>
    decreases q.len(),
{
    if q.len() == 0 {
        seq![seq![]]
    } else {
        let front = parameters(q.drop_last());
        if q.last() == '&' {
            front.push(seq![])
        } else {
            front.drop_last().push(front.last().push(q.last()))
        }
    }
}

/// The token that a parameter carries: it is called `token` or `access_token`.
pub open spec fn parameter_token(p: Seq<char>) -> Option<Seq<char>> {
    match behind(p, "token="@) {
        Some(t) => Some(t),
        None => behind(p, "access_token="@),
    }
}

/// The first token among some parameters.
pub open spec fn first_token(s: Seq<Seq<char>>) -> Option<Seq<char>>
    decreases s.len(),
{
    if s.len() == 0 {
        None
    } else {
        match first_token(s.drop_last()) {
            Some(t) => Some(t),
            None => parameter_token(s.last()),
        }
    }
}

/// The token that a request presents. Where it has an `Authorization` header,
/// that decides alone.
pub open spec fn presented(header: Option<Seq<char>>, query: Option<Seq<char>>) -> Option<
    Seq<char>,
> {
    match header {
        Some(h) => behind(h, "Bearer "@),
        None => match query {
            Some(q) => first_token(parameters(q)),
            None => None,
        },
    }
}

/// There is always at least one parameter, though it may be empty.
proof fn lemma_parameters(q: Seq<char>)
    ensures
        parameters(q).len() > 0,
    decreases q.len(),
{
    if q.len() > 0 {
        lemma_parameters(q.drop_last());
    }
}

/// Splits a query string at its ampersands.
fn split(q: &str) -> (r: Vec<String>)
    ensures
        crate::events::texts(r@) == parameters(q@),
{
    let ghost all = q@;
    let len: usize = q.unicode_len();
    let mut out: Vec<String> = Vec::new();
    let mut piece: String = "".to_owned();
    let mut i: usize = 0;
    proof {
        reveal_strlit("");
        assert(all.take(0) =~= seq![]);
        assert(piece@ =~= seq![]);
        assert(crate::events::texts(out@).push(piece@) =~= parameters(all.take(0)));
    }
    while i < len
        invariant
            0 <= i <= len,
            all == q@,
            len == all.len(),
            crate::events::texts(out@).push(piece@) == parameters(all.take(i as int)),
        decreases len - i,
    {
        let c: char = q.get_char(i);
        let ghost done = crate::events::texts(out@);
        let ghost front = parameters(all.take(i as int));
        proof {
            lemma_parameters(all.take(i as int));
            assert(all.take(i + 1).drop_last() =~= all.take(i as int));
            assert(all.take(i + 1).last() == c);
            assert(front.drop_last() =~= done);
            assert(front.last() == piece@);
        }
        if c == '&' {
            let whole = piece;
            piece = "".to_owned();
            let ghost text = whole@;
            out.push(whole);
            proof {
                reveal_strlit("");
                assert(piece@ =~= seq![]);
                assert(crate::events::texts(out@) =~= done.push(text));
                assert(crate::events::texts(out@).push(piece@) =~= front.push(seq![]));
            }
        } else {
            piece.push(c);
            assert(crate::events::texts(out@).push(piece@) =~= done.push(front.last().push(c)));
        }
        i = i + 1;
    }
    proof {
        assert(all.take(i as int) =~= all);
    }
    let ghost done = crate::events::texts(out@);
    let ghost text = piece@;
    out.push(piece);
    assert(crate::events::texts(out@) =~= done.push(text));
    out
}

/// A token among the first parameters is the first of all.
proof fn lemma_token_prefix(s: Seq<Seq<char>>, k: int)
    requires
        0 <= k <= s.len(),
        first_token(s.take(k)) is Some,
    ensures
        first_token(s) == first_token(s.take(k)),
    decreases s.len(),
{
    if k < s.len() {
        assert(s.drop_last().take(k) =~= s.take(k));
        lemma_token_prefix(s.drop_last(), k);
    } else {
        assert(s.take(k) =~= s);
    }
}

/// Does a query string present the token that is expected?
fn query_allows(expected: &str, q: &str) -> (r: bool)
    ensures
        r == (first_token(parameters(q@)) == Some(expected@)),
{
    let pieces = split(q);
    let ghost all = crate::events::texts(pieces@);
    let mut i: usize = 0;
    assert(all.take(0) =~= seq![]);
    while i < pieces.len()
        invariant
            0 <= i <= pieces@.len(),
            all == crate::events::texts(pieces@),
            all == parameters(q@),
            first_token(all.take(i as int)) is None,
        decreases pieces@.len() - i,
    {
        proof {
            assert(all.take(i + 1).drop_last() =~= all.take(i as int));
            assert(all.take(i + 1).last() == pieces@[i as int]@);
        }
        let short = strip(pieces[i].as_str(), "token=");
        let found = match short {
            Some(t) => Some(t),
            None => strip(pieces[i].as_str(), "access_token="),
        };
        if let Some(t) = found {
            proof {
                lemma_token_prefix(all, i + 1);
            }
            return same(t, expected);
        }
        i = i + 1;
    }
    assert(all.take(i as int) =~= all);
    false
}

/// May a request with this `Authorization` header and this query string use the
/// server?
pub fn authorized(expected: &str, header: Option<&str>, query: Option<&str>) -> (r: bool)
    ensures
        r == (presented(crate::icloud::str_view(header), crate::icloud::str_view(query)) == Some(
            expected@,
        )),
{
    match header {
        Some(h) => match strip(h, "Bearer ") {
            Some(t) => same(t, expected),
            None => false,
        },
        None => match query {
            Some(q) => query_allows(expected, q),
            None => false,
        },
    }
}

/// Where both are present, the header decides and the query string does not
/// count.
pub proof fn header_takes_precedence(
    header: Seq<char>,
    query: Option<Seq<char>>,
    other: Option<Seq<char>>,
)
    ensures
        presented(Some(header), query) == presented(Some(header), other),
{
}

/// A request that carries neither presents no token.
pub proof fn no_credentials_no_access()
    ensures
        presented(None, None) is None,
{
}

/// A client that can set headers is let in by the token behind `Bearer `, and
/// by no other.
pub proof fn bearer_token_is_what_counts(token: Seq<char>, query: Option<Seq<char>>)
    ensures
        presented(Some("Bearer "@ + token), query) == Some(token),
{
    let h = "Bearer "@ + token;
    assert("Bearer "@ =~= h.subrange(0, "Bearer "@.len() as int));
    assert(h.skip("Bearer "@.len() as int) =~= token);
}

/// A query string without ampersands is one parameter.
proof fn lemma_one_parameter(q: Seq<char>)
    requires
        forall|i: int| 0 <= i < q.len() ==> #[trigger] q[i] != '&',
    ensures
        parameters(q) == seq![q],
    decreases q.len(),
{
    if q.len() > 0 {
        let front = q.drop_last();
        lemma_one_parameter(front);
        assert(q[q.len() - 1] != '&');
        assert(front.push(q.last()) =~= q);
        assert(seq![front].drop_last().push(front.push(q.last())) =~= seq![q]);
    } else {
        assert(q =~= seq![]);
    }
}

/// A client that cannot set headers is let in by the token in the query string,
/// under either name.
pub proof fn query_token_is_the_fallback(token: Seq<char>)
    requires
        !token.contains('&'),
    ensures
        presented(None, Some("token="@ + token)) == Some(token),
        presented(None, Some("access_token="@ + token)) == Some(token),
{
    reveal_strlit("token=");
    reveal_strlit("access_token=");
    let a = "token="@ + token;
    let b = "access_token="@ + token;
    assert forall|i: int| 0 <= i < a.len() implies #[trigger] a[i] != '&' by {
        if i >= 6 {
            assert(token.contains(token[i - 6]));
        }
    }
    assert forall|i: int| 0 <= i < b.len() implies #[trigger] b[i] != '&' by {
        if i >= 13 {
            assert(token.contains(token[i - 13]));
        }
    }
    lemma_one_parameter(a);
    lemma_one_parameter(b);
    reveal_with_fuel(first_token, 2);
    assert(seq![a].drop_last() =~= seq![]);
    assert(seq![b].drop_last() =~= seq![]);
    assert("token="@ =~= a.subrange(0, 6));
    assert(a.skip(6) =~= token);
    assert("access_token="@ =~= b.subrange(0, 13));
    assert(b.skip(13) =~= token);
    assert(b[0] == 'a');
    if "token="@.is_prefix_of(b) {
        assert("token="@ =~= b.subrange(0, 6));
        assert(b.subrange(0, 6)[0] == 't');
    }
}

/// Of a request with a header, the header is `Bearer ` and the token, to the
/// letter, or it presents none.
pub proof fn header_is_the_token_behind_bearer(
    header: Seq<char>,
    query: Option<Seq<char>>,
    token: Seq<char>,
)
    ensures
        presented(Some(header), query) == Some(token) <==> header == "Bearer "@ + token,
{
    let b = "Bearer "@;
    if header == b + token {
        bearer_token_is_what_counts(token, query);
    }
    if presented(Some(header), query) == Some(token) {
        assert(b =~= header.subrange(0, b.len() as int));
        assert(header =~= b + header.skip(b.len() as int));
    }
}

/// What stands before the first ampersand is the first parameter, and what
/// stands behind it is split in the same way.
proof fn lemma_first_parameter(first: Seq<char>, rest: Seq<char>)
    requires
        !first.contains('&'),
    ensures
        parameters(first + seq!['&'] + rest) == seq![first] + parameters(rest),
    decreases rest.len(),
{
    let q = first + seq!['&'] + rest;
    assert forall|i: int| 0 <= i < first.len() implies #[trigger] first[i] != '&' by {
        assert(first.contains(first[i]));
    }
    if rest.len() == 0 {
        lemma_one_parameter(first);
        assert(q =~= first.push('&'));
        assert(q.drop_last() =~= first);
        assert(parameters(q) =~= seq![first] + parameters(rest));
    } else {
        let less = rest.drop_last();
        lemma_first_parameter(first, less);
        lemma_parameters(less);
        assert(q.drop_last() =~= first + seq!['&'] + less);
        assert(q.last() == rest.last());
        let front = seq![first] + parameters(less);
        assert(front.last() == parameters(less).last());
        assert(parameters(q) =~= seq![first] + parameters(rest));
    }
}

/// The first token of a list is that of its first item, else that of the rest.
proof fn lemma_first_of_list(p: Seq<char>, rest: Seq<Seq<char>>)
    ensures
        first_token(seq![p] + rest) == match parameter_token(p) {
            Some(t) => Some(t),
            None => first_token(rest),
        },
    decreases rest.len(),
{
    let all = seq![p] + rest;
    reveal_with_fuel(first_token, 2);
    if rest.len() == 0 {
        assert(all.drop_last() =~= seq![]);
        assert(all.last() == p);
    } else {
        lemma_first_of_list(p, rest.drop_last());
        assert(all.drop_last() =~= seq![p] + rest.drop_last());
        assert(all.last() == rest.last());
    }
}

/// A parameter carries a token under one of the two names, and in no other way.
proof fn lemma_parameter_token(p: Seq<char>, token: Seq<char>)
    ensures
        p == "token="@ + token ==> parameter_token(p) == Some(token),
        p == "access_token="@ + token ==> parameter_token(p) == Some(token),
        parameter_token(p) == Some(token) ==> p == "token="@ + token || p == "access_token="@
            + token,
{
    reveal_strlit("token=");
    reveal_strlit("access_token=");
    let a = "token="@;
    let b = "access_token="@;
    if a.is_prefix_of(p) {
        assert(a =~= p.subrange(0, 6));
        assert(p =~= a + p.skip(6));
        assert(p[0] == p.subrange(0, 6)[0]);
    }
    if b.is_prefix_of(p) {
        assert(b =~= p.subrange(0, 13));
        assert(p =~= b + p.skip(13));
    }
    if p == a + token {
        assert(a =~= p.subrange(0, 6));
        assert(p.skip(6) =~= token);
    }
    if p == b + token {
        assert(b =~= p.subrange(0, 13));
        assert(p.skip(13) =~= token);
        assert(p[0] == 'a');
    }
}

/// A query string is read parameter by parameter, from the front: the first that
/// is called `token` or `access_token` is the token that is presented, whatever
/// stands behind it, and any other is passed over.
pub proof fn query_is_read_from_the_front(first: Seq<char>, rest: Seq<char>, token: Seq<char>)
    requires
        !first.contains('&'),
    ensures
        first == "token="@ + token || first == "access_token="@ + token ==> presented(
            None,
            Some(first + seq!['&'] + rest),
        ) == Some(token) && presented(None, Some(first)) == Some(token),
        (forall|t: Seq<char>| first != #[trigger] ("token="@ + t) && first != "access_token="@ + t)
            ==> presented(None, Some(first + seq!['&'] + rest)) == presented(None, Some(rest))
            && presented(None, Some(first)) is None,
{
    assert forall|i: int| 0 <= i < first.len() implies #[trigger] first[i] != '&' by {
        assert(first.contains(first[i]));
    }
    lemma_first_parameter(first, rest);
    lemma_one_parameter(first);
    lemma_first_of_list(first, parameters(rest));
    lemma_first_of_list(first, seq![]);
    assert(seq![first] + Seq::<Seq<char>>::empty() =~= seq![first]);
    lemma_parameter_token(first, token);
    if parameter_token(first) is Some {
        let t = parameter_token(first)->0;
        lemma_parameter_token(first, t);
        assert("token="@ + t == "token="@ + t);
    }
}

} // verus!
