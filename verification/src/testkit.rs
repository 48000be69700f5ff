//! Help for tests against captures: captured bytes with what is known of them, exact comparison,
//! and loss that does not depend on chance.
use vstd::prelude::*;
use vstd::string::*;

use crate::hex;
use crate::hex::hex_text;
use crate::text::{copy_str, decimal, decimal_string};

verus! {

/// What is known of a capture.
#[derive(Debug, Clone, PartialEq, Eq)]
pub struct Meta {
    /// The release of the host.
    pub sunshine_version: String,
    /// The day of the capture.
    pub captured: String,
    /// The layer, such as "pairing/getservercert".
    pub layer: String,
    pub codec: Option<String>,
    pub notes: Option<String>,
}

/// Captured bytes and what is known of them.
#[derive(Debug, Clone)]
pub struct Fixture {
    pub bytes: Vec<u8>,
    pub meta: Meta,
}

/// The first place from `at` on at which two texts differ; the length of the shorter one if they
/// agree up to there.
pub open spec fn first_difference(a: Seq<u8>, b: Seq<u8>, at: nat) -> nat
    decreases a.len() - at,
{
    if at >= a.len() || at >= b.len() || a[at as int] != b[at as int] {
        at
    } else {
        first_difference(a, b, at + 1)
    }
}

/// The bytes from `from` to `to` in hexadecimal, each after a space, or after a mark if it is the
/// one at `around`.
pub open spec fn marked(b: Seq<u8>, around: int, from: int, to: int) -> Seq<char>
    decreases to - from,
{
    if from >= to {
        Seq::empty()
    } else {
        marked(b, around, from, to - 1) + (if to - 1 == around {
            ">"@
        } else {
            " "@
        }) + hex_text(seq![b[to - 1]], false)
    }
}

/// The bytes around a place, four before it and eight from it on.
pub open spec fn window(b: Seq<u8>, around: int) -> Seq<char> {
    marked(
        b,
        around,
        if around < 4 {
            0
        } else {
            around - 4
        },
        if around + 8 < b.len() {
            around + 8
        } else {
            b.len() as int
        },
    )
}

fn hex_window(bytes: &[u8], around: usize) -> (r: String)
    requires
        around <= bytes@.len(),
    ensures
        r@ == window(bytes@, around as int),
{
    let start: usize = if around < 4 {
        0
    } else {
        around - 4
    };
    let end: usize = if bytes.len() - around > 8 {
        around + 8
    } else {
        bytes.len()
    };
    let mut s: String = String::new();
    let mut i: usize = start;
    while i < end
        invariant
            start <= i <= end,
            end <= bytes@.len(),
            s@ == marked(bytes@, around as int, start as int, i as int),
        decreases end - i,
    {
        if i == around {
            s.append(">");
        } else {
            s.append(" ");
        }
        let one: [u8; 1] = [bytes[i]];
        assert(one@ =~= seq![bytes@[i as int]]);
        s.append(hex::encode(&one).as_str());
        i += 1;
    }
    s
}

/// What is said of bytes that are not those expected.
pub open spec fn mismatch(actual: Seq<u8>, expected: Seq<u8>) -> Seq<char> {
    let at = first_difference(actual, expected, 0);
    "golden mismatch: lengths actual="@ + decimal(actual.len()) + " expected="@ + decimal(
        expected.len(),
    ) + ", first diff at byte "@ + decimal(at) + "\n  actual   "@ + window(actual, at as int)
        + "\n  expected "@ + window(expected, at as int)
}

/// Compare bytes with those expected. Where they differ, say where, and show the bytes around.
pub fn assert_bytes_eq(actual: &[u8], expected: &[u8]) -> (r: Result<(), String>)
    ensures
        r is Ok <==> actual@ == expected@,
        r matches Err(why) ==> why@ == mismatch(actual@, expected@),
{
    let mut at: usize = 0;
    while at < actual.len() && at < expected.len() && actual[at] == expected[at]
        invariant
            at <= actual@.len(),
            at <= expected@.len(),
            forall|i: int| 0 <= i < at ==> #[trigger] actual@[i] == expected@[i],
            first_difference(actual@, expected@, 0) == first_difference(
                actual@,
                expected@,
                at as nat,
            ),
        decreases actual.len() - at,
    {
        at += 1;
    }
    if at == actual.len() && at == expected.len() {
        assert(actual@ =~= expected@);
        return Ok(());
    }
    let mut s: String = copy_str("golden mismatch: lengths actual=");
    s.append(decimal_string(actual.len() as u64).as_str());
    s.append(" expected=");
    s.append(decimal_string(expected.len() as u64).as_str());
    s.append(", first diff at byte ");
    s.append(decimal_string(at as u64).as_str());
    s.append("\n  actual   ");
    s.append(hex_window(actual, at).as_str());
    s.append("\n  expected ");
    s.append(hex_window(expected, at).as_str());
    Err(s)
}

/// Leave out the shards in the given places.
pub fn drop_indices<T: Clone>(shards: &[T], drop: &[usize]) -> (r: Vec<Option<T>>)
    ensures
        r@.len() == shards@.len(),
        forall|i: int|
            #![trigger r@[i]]
            0 <= i < r@.len() ==> match r@[i] {
                None => drop@.contains(i as usize),
                Some(x) => !drop@.contains(i as usize) && cloned(shards@[i], x),
            },
{
    let mut out: Vec<Option<T>> = Vec::with_capacity(shards.len());
    let mut i: usize = 0;
    while i < shards.len()
        invariant
            i <= shards@.len(),
            out@.len() == i,
            forall|j: int|
                #![trigger out@[j]]
                0 <= j < i ==> match out@[j] {
                    None => drop@.contains(j as usize),
                    Some(x) => !drop@.contains(j as usize) && cloned(shards@[j], x),
                },
        decreases shards.len() - i,
    {
        if holds(drop, i) {
            out.push(None);
        } else {
            out.push(Some(shards[i].clone()));
        }
        i += 1;
    }
    out
}

fn holds(list: &[usize], x: usize) -> (r: bool)
    ensures
        r == list@.contains(x),
{
    let mut i: usize = 0;
    while i < list.len()
        invariant
            i <= list@.len(),
            forall|j: int| 0 <= j < i ==> #[trigger] list@[j] != x,
        decreases list.len() - i,
    {
        if list[i] == x {
            return true;
        }
        i += 1;
    }
    false
}

/// The first difference is where both agree up to and no further: at a byte that differs, or at the
/// end of one of them.
pub proof fn law_first_difference(a: Seq<u8>, b: Seq<u8>)
    ensures
        ({
            let at = first_difference(a, b, 0);
            &&& at <= a.len() && at <= b.len()
            &&& a.take(at as int) == b.take(at as int)
            &&& at < a.len() && at < b.len() ==> a[at as int] != b[at as int]
        }),
{
    lemma_agree(a, b, 0);
    let at = first_difference(a, b, 0) as int;
    assert(a.take(at) =~= b.take(at));
}

proof fn lemma_agree(a: Seq<u8>, b: Seq<u8>, at: nat)
    requires
        at <= a.len(),
        at <= b.len(),
    ensures
        at <= first_difference(a, b, at) <= a.len(),
        first_difference(a, b, at) <= b.len(),
        forall|i: int| at <= i < first_difference(a, b, at) ==> a[i] == b[i],
        first_difference(a, b, at) < a.len() && first_difference(a, b, at) < b.len()
            ==> a[first_difference(a, b, at) as int] != b[first_difference(a, b, at) as int],
    decreases a.len() - at,
{
    if at < a.len() && at < b.len() && a[at as int] == b[at as int] {
        lemma_agree(a, b, at + 1);
    }
}

/// A mark stands before the byte at the place in question, a space before each other one, and each
/// is shown by its two digits.
pub proof fn law_marked(b: Seq<u8>, around: int, from: int, to: int, j: int)
    requires
        0 <= from <= j < to <= b.len(),
    ensures
        marked(b, around, from, to).len() == 3 * (to - from),
        marked(b, around, from, to)[3 * (j - from)] == if j == around {
            '>'
        } else {
            ' '
        },
        marked(b, around, from, to).subrange(3 * (j - from) + 1, 3 * (j - from) + 3) == hex_text(
            seq![b[j]],
            false,
        ),
    decreases to - from,
{
    reveal_strlit(">");
    reveal_strlit(" ");
    let t = marked(b, around, from, to);
    let before = marked(b, around, from, to - 1);
    let digits = hex_text(seq![b[to - 1]], false);
    assert(digits.len() == 2);
    if from < to - 1 {
        let k = if j < to - 1 {
            j
        } else {
            from
        };
        law_marked(b, around, from, to - 1, k);
    } else {
        assert(before.len() == 0);
    }
    let at = 3 * (j - from);
    if j < to - 1 {
        assert(t[at] == before[at]);
        assert(t.subrange(at + 1, at + 3) =~= before.subrange(at + 1, at + 3));
    } else {
        assert(t.subrange(at + 1, at + 3) =~= digits);
    }
}

/// What is shown of bytes are those around a place: up to four before it and up to eight from it on.
pub proof fn law_window(b: Seq<u8>, around: int)
    requires
        0 <= around < b.len(),
    ensures
        exists|from: int, to: int| #[trigger]
            marked(b, around, from, to) == window(b, around) && 0 <= from <= around < to <= b.len()
                && (from == around - 4 || (from == 0 && around < 4)) && (to == around + 8 || (to
                == b.len() && to < around + 8)),
{
    let from = if around < 4 {
        0
    } else {
        around - 4
    };
    let to = if around + 8 < b.len() {
        around + 8
    } else {
        b.len() as int
    };
    assert(marked(b, around, from, to) == window(b, around));
}

} // verus!
