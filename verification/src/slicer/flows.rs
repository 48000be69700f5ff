//! Connections, told apart by their layer and the addresses of their ends.
use vstd::prelude::*;

use crate::slicer::layers::{layer_rank, Layer};
use crate::text::{
    chars_of, comes_before, lemma_precedes_not_self, lemma_precedes_total,
    lemma_precedes_transitive, precedes, same_chars,
};

verus! {

/// What tells a connection from others.
#[derive(Debug, Clone, PartialEq, Eq)]
pub struct FlowKey {
    pub layer: Layer,
    pub client_ip: String,
    pub client_port: u16,
    pub server_port: u16,
}

/// What a [`FlowKey`] holds.
#[verifier::ext_equal]
pub struct KeyView {
    pub layer: Layer,
    pub client_ip: Seq<char>,
    pub client_port: u16,
    pub server_port: u16,
}

impl View for FlowKey {
    type V = KeyView;

    open spec fn view(&self) -> KeyView {
        KeyView {
            layer: self.layer,
            client_ip: self.client_ip@,
            client_port: self.client_port,
            server_port: self.server_port,
        }
    }
}

/// The order of connections: by the name of the layer, the address and the port of the client,
/// and the port of the server.
pub open spec fn key_less(a: KeyView, b: KeyView) -> bool {
    if layer_rank(a.layer) != layer_rank(b.layer) {
        layer_rank(a.layer) < layer_rank(b.layer)
    } else if a.client_ip != b.client_ip {
        precedes(a.client_ip, b.client_ip)
    } else if a.client_port != b.client_port {
        a.client_port < b.client_port
    } else {
        a.server_port < b.server_port
    }
}

/// Of two different keys exactly one is less than the other, and none is less than itself.
pub proof fn lemma_key_total(a: KeyView, b: KeyView)
    ensures
        key_less(a, b) || key_less(b, a) || a == b,
        !(key_less(a, b) && key_less(b, a)),
        !key_less(a, a),
{
    lemma_precedes_total(a.client_ip, b.client_ip);
    lemma_precedes_not_self(a.client_ip);
}

/// The order of keys is transitive.
pub proof fn lemma_key_transitive(a: KeyView, b: KeyView, c: KeyView)
    requires
        key_less(a, b),
        key_less(b, c),
    ensures
        key_less(a, c),
{
    if a.client_ip != b.client_ip && b.client_ip != c.client_ip && layer_rank(a.layer)
        == layer_rank(b.layer) && layer_rank(b.layer) == layer_rank(c.layer) {
        lemma_precedes_transitive(a.client_ip, b.client_ip, c.client_ip);
        lemma_precedes_not_self(a.client_ip);
    }
}

/// The contents of a list of keys.
pub open spec fn key_views(v: Seq<FlowKey>) -> Seq<KeyView> {
    v.map_values(|k: FlowKey| k@)
}

/// Keys in ascending order.
pub open spec fn ascending(ks: Seq<KeyView>) -> bool {
    forall|i: int, j: int|
        0 <= i < j < ks.len() ==> key_less(#[trigger] ks[i], #[trigger] ks[j])
}

/// Whether `k` is at place `i`.
pub open spec fn key_at(ks: Seq<KeyView>, k: KeyView, i: int) -> bool {
    0 <= i < ks.len() && ks[i] == k
}

/// The values by their keys.
pub open spec fn keyed<V>(ks: Seq<KeyView>, vs: Seq<V>) -> Map<KeyView, V> {
    Map::new(
        |k: KeyView| exists|i: int| key_at(ks, k, i),
        |k: KeyView| vs[choose|i: int| key_at(ks, k, i)],
    )
}

/// Ascending keys have one value each.
pub proof fn lemma_keyed_at<V>(ks: Seq<KeyView>, vs: Seq<V>, i: int)
    requires
        ascending(ks),
        0 <= i < ks.len(),
    ensures
        keyed(ks, vs).contains_key(ks[i]),
        keyed(ks, vs)[ks[i]] == vs[i],
{
    let k = ks[i];
    assert(key_at(ks, k, i));
    let j = choose|j: int| key_at(ks, k, j);
    lemma_key_total(k, k);
    if j < i {
        assert(key_less(ks[j], ks[i]));
    } else if i < j {
        assert(key_less(ks[i], ks[j]));
    }
}

/// Replacing the value at a place replaces the value of its key.
pub proof fn lemma_keyed_update<V>(ks: Seq<KeyView>, vs: Seq<V>, i: int, v: V)
    requires
        ascending(ks),
        ks.len() == vs.len(),
        0 <= i < ks.len(),
    ensures
        keyed(ks, vs.update(i, v)) == keyed(ks, vs).insert(ks[i], v),
{
    let (a, b) = (keyed(ks, vs.update(i, v)), keyed(ks, vs).insert(ks[i], v));
    assert(key_at(ks, ks[i], i));
    assert forall|k: KeyView| #![auto] a.contains_key(k) implies a[k] == b[k] by {
        let j = choose|j: int| key_at(ks, k, j);
        lemma_keyed_at(ks, vs.update(i, v), j);
        lemma_keyed_at(ks, vs, j);
        if j != i {
            lemma_key_total(ks[i], ks[j]);
            if j < i {
                assert(key_less(ks[j], ks[i]));
            } else {
                assert(key_less(ks[i], ks[j]));
            }
            lemma_key_total(ks[j], ks[j]);
        }
    }
    assert(a =~= b);
}

/// Putting a new key at its place adds it and its value.
pub proof fn lemma_keyed_insert<V>(ks: Seq<KeyView>, vs: Seq<V>, i: int, k: KeyView, v: V)
    requires
        ascending(ks),
        ks.len() == vs.len(),
        0 <= i <= ks.len(),
        forall|j: int| 0 <= j < i ==> key_less(#[trigger] ks[j], k),
        forall|j: int| i <= j < ks.len() ==> key_less(k, #[trigger] ks[j]),
    ensures
        ascending(ks.insert(i, k)),
        !keyed(ks, vs).contains_key(k),
        keyed(ks.insert(i, k), vs.insert(i, v)) == keyed(ks, vs).insert(k, v),
{
    let (kt, vt) = (ks.insert(i, k), vs.insert(i, v));
    assert forall|p: int, q: int| 0 <= p < q < kt.len() implies key_less(
        #[trigger] kt[p],
        #[trigger] kt[q],
    ) by {
        let (x, y) = (
            if p < i {
                p
            } else {
                p - 1
            },
            if q < i {
                q
            } else {
                q - 1
            },
        );
        if p == i {
            assert(key_less(k, ks[y]));
        } else if q == i {
            assert(key_less(ks[x], k));
        } else {
            assert(key_less(ks[x], ks[y]));
        }
    }
    if keyed(ks, vs).contains_key(k) {
        let j = choose|j: int| key_at(ks, k, j);
        lemma_key_total(k, k);
        assert(key_less(ks[j], k) || key_less(k, ks[j]));
    }
    let (a, b) = (keyed(kt, vt), keyed(ks, vs).insert(k, v));
    assert forall|x: KeyView| #![auto] a.contains_key(x) <==> b.contains_key(x) by {
        if a.contains_key(x) {
            let p = choose|p: int| key_at(kt, x, p);
            if p != i {
                assert(key_at(
                    ks,
                    x,
                    if p < i {
                        p
                    } else {
                        p - 1
                    },
                ));
            }
        }
        if keyed(ks, vs).contains_key(x) {
            let j = choose|j: int| key_at(ks, x, j);
            assert(key_at(
                kt,
                x,
                if j < i {
                    j
                } else {
                    j + 1
                },
            ));
        }
        assert(key_at(kt, k, i));
    }
    assert forall|x: KeyView| #![auto] a.contains_key(x) implies a[x] == b[x] by {
        let p = choose|p: int| key_at(kt, x, p);
        lemma_keyed_at(kt, vt, p);
        if p != i {
            let j = if p < i {
                p
            } else {
                p - 1
            };
            lemma_keyed_at(ks, vs, j);
            lemma_key_total(k, x);
            assert(key_less(ks[j], k) || key_less(k, ks[j]));
        }
    }
    assert(a =~= b);
}

/// Whether `a` comes before `b`.
fn key_before(a: &FlowKey, b: &FlowKey) -> (r: bool)
    ensures
        r == key_less(a@, b@),
{
    if a.layer.rank() != b.layer.rank() {
        return a.layer.rank() < b.layer.rank();
    }
    let (x, y) = (chars_of(a.client_ip.as_str()), chars_of(b.client_ip.as_str()));
    if !same_chars(&x, &y) {
        return comes_before(&x, &y);
    }
    if a.client_port != b.client_port {
        return a.client_port < b.client_port;
    }
    a.server_port < b.server_port
}

/// The place of `key` among ascending keys, and whether it is there.
pub fn locate(keys: &Vec<FlowKey>, key: &FlowKey) -> (r: (usize, bool))
    requires
        ascending(key_views(keys@)),
    ensures
        r.0 <= keys.len(),
        forall|j: int| 0 <= j < r.0 ==> key_less(#[trigger] key_views(keys@)[j], key@),
        r.1 ==> r.0 < keys.len() && key_views(keys@)[r.0 as int] == key@,
        !r.1 ==> forall|j: int|
            r.0 <= j < keys.len() ==> key_less(key@, #[trigger] key_views(keys@)[j]),
{
    let ghost ks = key_views(keys@);
    let mut i: usize = 0;
    while i < keys.len() && key_before(&keys[i], key)
        invariant
            i <= keys.len(),
            ks == key_views(keys@),
            forall|j: int| 0 <= j < i ==> key_less(#[trigger] ks[j], key@),
        decreases keys.len() - i,
    {
        assert(ks[i as int] == keys@[i as int]@);
        i += 1;
    }
    if i < keys.len() {
        assert(ks[i as int] == keys@[i as int]@);
        if !key_before(key, &keys[i]) {
            proof {
                lemma_key_total(ks[i as int], key@);
            }
            return (i, true);
        }
        proof {
            assert forall|j: int| i <= j < keys.len() implies key_less(
                key@,
                #[trigger] ks[j],
            ) by {
                if j > i {
                    assert(key_less(ks[i as int], ks[j]));
                    lemma_key_transitive(key@, ks[i as int], ks[j]);
                }
            }
        }
    }
    (i, false)
}

} // verus!
