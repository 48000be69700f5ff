//! Requests as a host reads them: an endpoint, and parameters by their names.
use vstd::prelude::*;
use vstd::string::*;

use crate::hex::{hex_digit, hex_text};
use crate::text::{
    before, begins_with, decimal, index_of, is_digit, lemma_decimal, lemma_index_of,
    lemma_split_first, split,
};

verus! {

/// What a request asks for: all before the question mark.
pub open spec fn endpoint(path: Seq<char>) -> Seq<char> {
    before(path, '?')
}

/// The parameters of a request, with ampersands between them.
pub open spec fn parameters(path: Seq<char>) -> Seq<Seq<char>> {
    split(path.skip(index_of(path, '?') + 1), '&')
}

/// What follows `name` in each part that begins with it.
pub open spec fn values(parts: Seq<Seq<char>>, name: Seq<char>) -> Seq<Seq<char>>
    decreases parts.len(),
{
    if parts.len() == 0 {
        Seq::empty()
    } else {
        let rest = values(parts.drop_first(), name);
        if begins_with(parts[0], name) {
            seq![parts[0].skip(name.len() as int)] + rest
        } else {
            rest
        }
    }
}

/// Whether a request has one parameter of that name, and what it says. The name comes with its
/// equals sign.
pub open spec fn asks(path: Seq<char>, name: Seq<char>, value: Seq<char>) -> bool {
    values(parameters(path), name) == seq![value]
}

/// Whether a text can be a part of a parameter: no ampersand is in it.
pub open spec fn is_part(s: Seq<char>) -> bool {
    forall|i: int| 0 <= i < s.len() ==> #[trigger] s[i] != '&'
}

/// Whether a part differs from `name` at one of two places.
pub open spec fn differs(part: Seq<char>, name: Seq<char>, a: int, b: int) -> bool {
    ||| part.len() <= a
    ||| part[a] != name[a]
    ||| part.len() <= b
    ||| part[b] != name[b]
}

/// Whether each of the first `n` parts but part `own` differs from `name` at one of two places.
pub open spec fn differ(
    l: Seq<Seq<char>>,
    n: nat,
    own: int,
    name: Seq<char>,
    a: int,
    b: int,
) -> bool
    decreases n,
{
    n == 0 || (differ(l, (n - 1) as nat, own, name, a, b) && (n - 1 == own || differs(
        l[n - 1],
        name,
        a,
        b,
    )))
}

pub proof fn lemma_differ(
    l: Seq<Seq<char>>,
    n: nat,
    own: int,
    name: Seq<char>,
    a: int,
    b: int,
    j: int,
)
    requires
        differ(l, n, own, name, a, b),
        0 <= j < n,
        j != own,
    ensures
        differs(l[j], name, a, b),
    decreases n,
{
    if j < n - 1 {
        lemma_differ(l, (n - 1) as nat, own, name, a, b, j);
    }
}

/// The parts from `j` on, with ampersands between them.
pub open spec fn joined_from(l: Seq<Seq<char>>, j: int) -> Seq<char>
    decreases l.len() - j,
{
    if j < 0 || j >= l.len() {
        Seq::empty()
    } else if j == l.len() - 1 {
        l[j]
    } else {
        l[j] + (seq!['&'] + joined_from(l, j + 1))
    }
}

/// Whether the first `n` parts hold no ampersands.
pub open spec fn are_parts(l: Seq<Seq<char>>, n: nat) -> bool
    decreases n,
{
    n == 0 || (are_parts(l, (n - 1) as nat) && is_part(l[n - 1]))
}

proof fn lemma_are_parts(l: Seq<Seq<char>>, n: nat, j: int)
    requires
        are_parts(l, n),
        0 <= j < n,
    ensures
        is_part(l[j]),
    decreases n,
{
    if j < n - 1 {
        lemma_are_parts(l, (n - 1) as nat, j);
    }
}

proof fn lemma_split_joined(l: Seq<Seq<char>>, j: int)
    requires
        are_parts(l, l.len()),
        0 <= j < l.len(),
    ensures
        split(joined_from(l, j), '&') == l.skip(j),
    decreases l.len() - j,
{
    lemma_are_parts(l, l.len(), j);
    if j == l.len() - 1 {
        lemma_split_first(l[j], '&', Seq::empty());
        assert(l.skip(j) =~= seq![l[j]]);
    } else {
        lemma_split_joined(l, j + 1);
        let rest = joined_from(l, j + 1);
        lemma_split_first(l[j], '&', rest);
        assert(l[j] + seq!['&'] + rest =~= l[j] + (seq!['&'] + rest));
        assert(l.skip(j) =~= seq![l[j]] + l.skip(j + 1));
    }
}

/// A request that was put together of an endpoint and parameters.
pub proof fn lemma_request(path: Seq<char>, start: Seq<char>, l: Seq<Seq<char>>)
    requires
        path == start + (seq!['?'] + joined_from(l, 0)),
        l.len() > 0,
        are_parts(l, l.len()),
        forall|i: int| 0 <= i < start.len() ==> #[trigger] start[i] != '?',
    ensures
        endpoint(path) == start,
        parameters(path) == l,
{
    lemma_index_of(path, '?');
    let n = start.len() as int;
    assert(path[n] == '?');
    assert(index_of(path, '?') == n) by {
        let i = index_of(path, '?');
        if i < n {
            assert(path[i] == start[i]);
        } else if i > n {
            assert(path[n] != '?');
        }
    }
    assert(path.take(n) =~= start);
    assert(path.skip(n + 1) =~= joined_from(l, 0));
    lemma_split_joined(l, 0);
    assert(l.skip(0) =~= l);
}

/// One part begins with a name, and no other does.
pub proof fn lemma_values(
    l: Seq<Seq<char>>,
    own: int,
    name: Seq<char>,
    value: Seq<char>,
    a: int,
    b: int,
)
    requires
        0 <= own < l.len(),
        differ(l, l.len(), own, name, a, b),
        l[own] == name + value,
        0 <= a < name.len(),
        0 <= b < name.len(),
    ensures
        values(l, name) == seq![value],
{
    lemma_values_from(l, own, name, value, a, b, 0);
    assert(l.skip(0) =~= l);
}

proof fn lemma_values_from(
    l: Seq<Seq<char>>,
    own: int,
    name: Seq<char>,
    value: Seq<char>,
    a: int,
    b: int,
    j: int,
)
    requires
        0 <= own < l.len(),
        differ(l, l.len(), own, name, a, b),
        l[own] == name + value,
        0 <= a < name.len(),
        0 <= b < name.len(),
        0 <= j <= l.len(),
    ensures
        values(l.skip(j), name) == if j <= own {
            seq![value]
        } else {
            Seq::empty()
        },
    decreases l.len() - j,
{
    let s = l.skip(j);
    if j < l.len() {
        lemma_values_from(l, own, name, value, a, b, j + 1);
        assert(s.drop_first() =~= l.skip(j + 1));
        assert(s[0] == l[j]);
        if j == own {
            assert(l[j].take(name.len() as int) =~= name);
            assert(l[j].skip(name.len() as int) =~= value);
            assert(seq![value] + Seq::<Seq<char>>::empty() =~= seq![value]);
        } else {
            lemma_differ(l, l.len(), own, name, a, b, j);
            if begins_with(l[j], name) {
                assert(l[j].take(name.len() as int)[a] == l[j][a]);
                assert(l[j].take(name.len() as int)[b] == l[j][b]);
            }
        }
    }
}

/// Parts in a row are a part.
pub proof fn lemma_part_pair(a: Seq<char>, b: Seq<char>)
    requires
        is_part(a),
        is_part(b),
    ensures
        is_part(a + b),
{
    assert forall|i: int| 0 <= i < (a + b).len() implies #[trigger] (a + b)[i] != '&' by {
        if i < a.len() {
            assert((a + b)[i] == a[i]);
        } else {
            assert((a + b)[i] == b[i - a.len()]);
        }
    }
}

/// Bytes in hexadecimal are a part.
pub proof fn lemma_hex_part(b: Seq<u8>)
    ensures
        is_part(hex_text(b, false)),
{
    let t = hex_text(b, false);
    assert forall|i: int| 0 <= i < t.len() implies #[trigger] t[i] != '&' by {
        let n = (if i % 2 == 0 {
            b[i / 2] / 16
        } else {
            b[i / 2] % 16
        }) as int;
        assert(t[i] == hex_digit(n, false));
        assert(0 <= n < 16);
    }
}

/// A number in decimal is a part.
pub proof fn lemma_decimal_part(n: nat)
    ensures
        is_part(decimal(n)),
{
    lemma_decimal(n);
    assert(!is_digit('&'));
}

} // verus!
