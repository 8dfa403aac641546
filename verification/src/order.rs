//! The order of keys, which is the order that strings have: that of
//! their bytes.

use vstd::prelude::*;

verus! {

/// The order of strings, which is the order of their bytes: the first
/// byte that differs decides, and a text comes before those it starts.
pub open spec fn bytes_le(a: Seq<u8>, b: Seq<u8>) -> bool
    decreases a.len(),
{
    if a.len() == 0 {
        true
    } else if b.len() == 0 {
        false
    } else if a[0] != b[0] {
        a[0] < b[0]
    } else {
        bytes_le(a.drop_first(), b.drop_first())
    }
}

/// Whether the key `a` sorts before the key `b` or is the same.
pub open spec fn key_le(a: Seq<char>, b: Seq<char>) -> bool {
    bytes_le(vstd::utf8::encode_utf8(a), vstd::utf8::encode_utf8(b))
}

/// Whether the keys stand in order, each before the next or the same.
pub open spec fn keys_sorted(keys: Seq<Seq<char>>) -> bool {
    forall|i: int, j: int| 0 <= i < j < keys.len() ==> key_le(keys[i], keys[j])
}

/// Of two texts one comes before the other, or they are the same.
pub proof fn lemma_bytes_le_total(a: Seq<u8>, b: Seq<u8>)
    ensures
        bytes_le(a, b) || bytes_le(b, a),
    decreases a.len(),
{
    if a.len() > 0 && b.len() > 0 && a[0] == b[0] {
        lemma_bytes_le_total(a.drop_first(), b.drop_first());
    }
}

/// Of two keys one comes before the other, or they are the same.
pub proof fn lemma_key_le_total(a: Seq<char>, b: Seq<char>)
    ensures
        key_le(a, b) || key_le(b, a),
{
    lemma_bytes_le_total(vstd::utf8::encode_utf8(a), vstd::utf8::encode_utf8(b));
}

/// Where one text comes before a second and that before a third, the
/// first comes before the third.
pub proof fn lemma_bytes_le_transitive(a: Seq<u8>, b: Seq<u8>, c: Seq<u8>)
    requires
        bytes_le(a, b),
        bytes_le(b, c),
    ensures
        bytes_le(a, c),
    decreases a.len(),
{
    if a.len() > 0 && b.len() > 0 && c.len() > 0 && a[0] == b[0] && b[0] == c[0] {
        lemma_bytes_le_transitive(a.drop_first(), b.drop_first(), c.drop_first());
    }
}

/// Whether the bytes `a` come before the bytes `b` or are the same.
fn le_bytes(a: &[u8], b: &[u8]) -> (r: bool)
    ensures
        r == bytes_le(a@, b@),
{
    let mut i: usize = 0;
    assert(a@.skip(0) =~= a@ && b@.skip(0) =~= b@);
    while i < a.len() && i < b.len()
        invariant
            i <= a.len(),
            i <= b.len(),
            bytes_le(a@, b@) == bytes_le(a@.skip(i as int), b@.skip(i as int)),
        decreases a.len() - i,
    {
        proof {
            assert(a@.skip(i as int).drop_first() =~= a@.skip(i + 1));
            assert(b@.skip(i as int).drop_first() =~= b@.skip(i + 1));
        }
        if a[i] != b[i] {
            return a[i] < b[i];
        }
        i += 1;
    }
    i == a.len()
}

/// Whether the key `a` sorts before the key `b` or is the same.
pub fn key_before_or_same(a: &str, b: &str) -> (r: bool)
    ensures
        r == key_le(a@, b@),
{
    le_bytes(a.as_bytes(), b.as_bytes())
}

/// A key put behind those that come before it and in front of those that
/// come after it leaves the keys in order.
pub proof fn lemma_insert_keeps_order(keys: Seq<Seq<char>>, i: int, x: Seq<char>)
    requires
        keys_sorted(keys),
        0 <= i <= keys.len(),
        forall|k: int| 0 <= k < i ==> key_le(keys[k], x),
        i < keys.len() ==> key_le(x, keys[i]),
    ensures
        keys_sorted(keys.insert(i, x)),
{
    let after = keys.insert(i, x);
    assert forall|a: int, b: int| 0 <= a < b < after.len() implies key_le(after[a], after[b]) by {
        if b == i {
            assert(after[a] == keys[a]);
        } else if a == i {
            assert(after[b] == keys[b - 1]);
            if b - 1 > i {
                assert(key_le(keys[i], keys[b - 1]));
                lemma_bytes_le_transitive(
                    vstd::utf8::encode_utf8(x),
                    vstd::utf8::encode_utf8(keys[i]),
                    vstd::utf8::encode_utf8(keys[b - 1]),
                );
            }
        } else {
            let a0 = if a < i {
                a
            } else {
                a - 1
            };
            let b0 = if b < i {
                b
            } else {
                b - 1
            };
            assert(after[a] == keys[a0]);
            assert(after[b] == keys[b0]);
        }
    }
}

/// A key that is put among keys which did not hold it is held once, and
/// the keys hold what they held and that key.
pub proof fn lemma_insert_adds_one(keys: Seq<Seq<char>>, i: int, x: Seq<char>)
    requires
        0 <= i <= keys.len(),
        keys.no_duplicates(),
        !keys.contains(x),
    ensures
        keys.insert(i, x).no_duplicates(),
        forall|y: Seq<char>| keys.insert(i, x).contains(y) <==> (keys.contains(y) || y == x),
{
    let after = keys.insert(i, x);
    assert forall|a: int, b: int|
        0 <= a < after.len() && 0 <= b < after.len() && a != b implies after[a] != after[b] by {
        let a0 = if a < i {
            a
        } else {
            a - 1
        };
        let b0 = if b < i {
            b
        } else {
            b - 1
        };
        if a == i {
            assert(after[b] == keys[b0]);
            assert(keys.contains(keys[b0]));
        } else if b == i {
            assert(after[a] == keys[a0]);
            assert(keys.contains(keys[a0]));
        } else {
            assert(after[a] == keys[a0]);
            assert(after[b] == keys[b0]);
        }
    }
    assert forall|y: Seq<char>| after.contains(y) <==> (keys.contains(y) || y == x) by {
        if keys.contains(y) {
            let k = choose|k: int| 0 <= k < keys.len() && keys[k] == y;
            let k1 = if k < i {
                k
            } else {
                k + 1
            };
            assert(after[k1] == y);
        }
        if y == x {
            assert(after[i] == y);
        }
        if after.contains(y) {
            let k = choose|k: int| 0 <= k < after.len() && after[k] == y;
            if k != i {
                let k0 = if k < i {
                    k
                } else {
                    k - 1
                };
                assert(keys[k0] == y);
            }
        }
    }
}

} // verus!
