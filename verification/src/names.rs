//! The order on indicator names.
//!
//! Names are ordered as Rust orders strings: lexicographically by the bytes
//! of their UTF-8 encoding.

use vstd::prelude::*;
use vstd::utf8::*;

verus! {

/// How one name stands to another in the order on names.
#[derive(Clone, Copy, Debug, PartialEq, Eq, Structural)]
pub enum NameOrder {
    Before,
    Same,
    After,
}

/// `a` and `b` agree on their first `k` bytes, and at position `k` the
/// sequence `a` ends or holds a smaller byte while `b` goes on.
pub open spec fn parts_at(a: Seq<u8>, b: Seq<u8>, k: int) -> bool {
    &&& 0 <= k <= a.len()
    &&& k < b.len()
    &&& forall|i: int| 0 <= i < k ==> a[i] == b[i]
    &&& k < a.len() ==> a[k] < b[k]
}

/// Strict lexicographic order on byte sequences.
pub open spec fn bytes_before(a: Seq<u8>, b: Seq<u8>) -> bool {
    exists|k: int| parts_at(a, b, k)
}

/// Strict order on names: the order of their UTF-8 encodings.
pub open spec fn name_before(a: Seq<char>, b: Seq<char>) -> bool {
    bytes_before(encode_utf8(a), encode_utf8(b))
}

/// The place of `a` relative to `b`.
pub open spec fn name_order(a: Seq<char>, b: Seq<char>) -> NameOrder {
    if name_before(a, b) {
        NameOrder::Before
    } else if a == b {
        NameOrder::Same
    } else {
        NameOrder::After
    }
}

/// No byte sequence comes before itself.
pub proof fn lemma_bytes_before_irreflexive(a: Seq<u8>)
    ensures
        !bytes_before(a, a),
{
}

/// The order on byte sequences is transitive.
pub proof fn lemma_bytes_before_transitive(a: Seq<u8>, b: Seq<u8>, c: Seq<u8>)
    requires
        bytes_before(a, b),
        bytes_before(b, c),
    ensures
        bytes_before(a, c),
{
    let k1 = choose|k: int| parts_at(a, b, k);
    let k2 = choose|k: int| parts_at(b, c, k);
    let k = if k1 <= k2 { k1 } else { k2 };
    assert(parts_at(a, c, k));
}

/// Two byte sequences that agree on their first `n` bytes are equal or one
/// comes before the other.
proof fn lemma_bytes_total_from(a: Seq<u8>, b: Seq<u8>, n: int)
    requires
        0 <= n <= a.len(),
        n <= b.len(),
        forall|i: int| 0 <= i < n ==> a[i] == b[i],
    ensures
        bytes_before(a, b) || a == b || bytes_before(b, a),
    decreases a.len() - n,
{
    if n == a.len() {
        if n == b.len() {
            assert(a =~= b);
        } else {
            assert(parts_at(a, b, n));
        }
    } else if n == b.len() {
        assert(parts_at(b, a, n));
    } else if a[n] < b[n] {
        assert(parts_at(a, b, n));
    } else if b[n] < a[n] {
        assert(parts_at(b, a, n));
    } else {
        lemma_bytes_total_from(a, b, n + 1);
    }
}

/// Any two byte sequences are equal or one comes before the other.
pub proof fn lemma_bytes_before_total(a: Seq<u8>, b: Seq<u8>)
    ensures
        bytes_before(a, b) || a == b || bytes_before(b, a),
{
    lemma_bytes_total_from(a, b, 0);
}

/// Names with the same encoding are the same name.
pub proof fn lemma_encoding_injective(a: Seq<char>, b: Seq<char>)
    requires
        encode_utf8(a) == encode_utf8(b),
    ensures
        a == b,
{
    encode_utf8_decode_utf8(a);
    encode_utf8_decode_utf8(b);
}

/// The order on names is a strict total order: of "before", "same" and
/// "after" exactly one holds of any two names, and "before" is transitive.
pub proof fn lemma_name_order_strict_total(a: Seq<char>, b: Seq<char>, c: Seq<char>)
    ensures
        !name_before(a, a),
        name_before(a, b) ==> !name_before(b, a),
        name_before(a, b) ==> a != b,
        name_before(a, b) || a == b || name_before(b, a),
        name_before(a, b) && name_before(b, c) ==> name_before(a, c),
{
    let ea = encode_utf8(a);
    let eb = encode_utf8(b);
    let ec = encode_utf8(c);
    lemma_bytes_before_irreflexive(ea);
    if bytes_before(ea, eb) && bytes_before(eb, ea) {
        lemma_bytes_before_transitive(ea, eb, ea);
    }
    lemma_bytes_before_total(ea, eb);
    if ea == eb {
        lemma_encoding_injective(a, b);
    }
    if bytes_before(ea, eb) && bytes_before(eb, ec) {
        lemma_bytes_before_transitive(ea, eb, ec);
    }
}

/// Compares two names byte by byte.
pub fn compare_names(a: &str, b: &str) -> (r: NameOrder)
    ensures
        r == name_order(a@, b@),
{
    let x = a.as_bytes();
    let y = b.as_bytes();
    let mut i: usize = 0;
    while i < x.len() && i < y.len()
        invariant
            i <= x.len(),
            i <= y.len(),
            x@ == encode_utf8(a@),
            y@ == encode_utf8(b@),
            forall|j: int| 0 <= j < i ==> x@[j] == y@[j],
        decreases x.len() - i,
    {
        if x[i] < y[i] {
            proof {
                assert(parts_at(x@, y@, i as int));
            }
            return NameOrder::Before;
        }
        if x[i] > y[i] {
            proof {
                assert(parts_at(y@, x@, i as int));
                lemma_name_order_strict_total(b@, a@, a@);
            }
            return NameOrder::After;
        }
        i += 1;
    }
    if x.len() < y.len() {
        proof {
            assert(parts_at(x@, y@, i as int));
        }
        NameOrder::Before
    } else if y.len() < x.len() {
        proof {
            assert(parts_at(y@, x@, i as int));
            lemma_name_order_strict_total(b@, a@, a@);
        }
        NameOrder::After
    } else {
        proof {
            assert(x@ =~= y@);
            lemma_encoding_injective(a@, b@);
            lemma_name_order_strict_total(a@, a@, a@);
        }
        NameOrder::Same
    }
}

/// The names held by a list of strings, in the list's order.
pub open spec fn names_of(list: Seq<String>) -> Seq<Seq<char>> {
    Seq::new(list.len(), |i: int| list[i]@)
}

/// Whether the names of `names` stand in strictly ascending order. Such a
/// sequence holds no name twice.
pub open spec fn ascending(names: Seq<Seq<char>>) -> bool {
    forall|i: int, j: int| 0 <= i < j < names.len() ==> name_before(names[i], names[j])
}

/// A strictly ascending sequence is fixed by the names it holds: two such
/// sequences with the same names are the same sequence.
pub proof fn law_ascending_unique(s: Seq<Seq<char>>, t: Seq<Seq<char>>)
    requires
        ascending(s),
        ascending(t),
        forall|n: Seq<char>| s.contains(n) <==> t.contains(n),
    ensures
        s == t,
    decreases s.len(),
{
    if s.len() == 0 {
        if t.len() > 0 {
            assert(t.contains(t[0]));
        }
        assert(s =~= t);
    } else {
        let last = s.len() - 1;
        assert(s.contains(s[last]));
        let k = choose|k: int| 0 <= k < t.len() && t[k] == s[last];
        // The last name of `s` is the greatest of both, so it ends `t` too.
        if k < t.len() - 1 {
            let m = t.len() - 1;
            assert(t.contains(t[m]));
            let i = choose|i: int| 0 <= i < s.len() && s[i] == t[m];
            lemma_name_order_strict_total(t[k], t[m], t[k]);
            if i < last {
                lemma_name_order_strict_total(s[i], s[last], s[i]);
            }
        }
        let s0 = s.drop_last();
        let t0 = t.drop_last();
        assert forall|n: Seq<char>| s0.contains(n) <==> t0.contains(n) by {
            if s0.contains(n) {
                let i = choose|i: int| 0 <= i < s0.len() && s0[i] == n;
                assert(s[i] == n);
                lemma_name_order_strict_total(s[i], s[last], s[i]);
                assert(s.contains(n));
                let j = choose|j: int| 0 <= j < t.len() && t[j] == n;
                assert(t0[j] == n);
            }
            if t0.contains(n) {
                let j = choose|j: int| 0 <= j < t0.len() && t0[j] == n;
                assert(t[j] == n);
                lemma_name_order_strict_total(t[j], t[k], t[j]);
                assert(t.contains(n));
                let i = choose|i: int| 0 <= i < s.len() && s[i] == n;
                assert(s0[i] == n);
            }
        }
        law_ascending_unique(s0, t0);
        assert(s =~= s0.push(s[last]));
        assert(t =~= t0.push(t[k]));
    }
}

/// Putting a name at its place in an ascending sequence keeps the sequence
/// ascending and adds that name to the names it holds.
proof fn lemma_ascending_insert(names: Seq<Seq<char>>, p: int, name: Seq<char>)
    requires
        ascending(names),
        0 <= p <= names.len(),
        forall|i: int| 0 <= i < p ==> name_before(#[trigger] names[i], name),
        p < names.len() ==> name_before(name, names[p]),
    ensures
        ascending(names.insert(p, name)),
        names.insert(p, name).to_set() == names.to_set().insert(name),
{
    let after = names.insert(p, name);
    assert forall|i: int, j: int| 0 <= i < j < after.len() implies name_before(
        after[i],
        after[j],
    ) by {
        let i0 = if i < p { i } else { i - 1 };
        let j0 = if j < p { j } else { j - 1 };
        if i == p {
            if j0 > p {
                assert(name_before(names[p], names[j0]));
                lemma_name_order_strict_total(name, names[p], names[j0]);
            }
        } else if j != p {
            assert(name_before(names[i0], names[j0]));
        }
    }
    assert forall|n: Seq<char>| after.to_set().contains(n) <==> names.to_set().insert(
        name,
    ).contains(n) by {
        if names.contains(n) {
            let i = choose|i: int| 0 <= i < names.len() && names[i] == n;
            let i1 = if i < p { i } else { i + 1 };
            assert(after[i1] == n);
        }
        if n == name {
            assert(after[p] == n);
        }
        if after.contains(n) {
            let i = choose|i: int| 0 <= i < after.len() && after[i] == n;
            if i != p {
                let i0 = if i < p { i } else { i - 1 };
                assert(names[i0] == n);
            }
        }
    }
    assert(after.to_set() =~= names.to_set().insert(name));
}

/// Finds where `name` is or would be in `list`: the number of names at the
/// front of the list that come before it, and whether the name at that place
/// is `name`.
fn find_name(list: &Vec<String>, name: &str) -> (r: (usize, bool))
    ensures
        r.0 <= list.len(),
        forall|i: int| 0 <= i < r.0 ==> name_before(#[trigger] names_of(list@)[i], name@),
        r.1 ==> r.0 < list.len() && names_of(list@)[r.0 as int] == name@,
        !r.1 && r.0 < list.len() ==> name_before(name@, names_of(list@)[r.0 as int]),
{
    let mut i: usize = 0;
    while i < list.len()
        invariant
            i <= list.len(),
            forall|j: int| 0 <= j < i ==> name_before(#[trigger] names_of(list@)[j], name@),
        decreases list.len() - i,
    {
        match compare_names(list[i].as_str(), name) {
            NameOrder::Before => {},
            NameOrder::Same => {
                return (i, true);
            },
            NameOrder::After => {
                proof {
                    lemma_name_order_strict_total(name@, list[i as int]@, name@);
                }
                return (i, false);
            },
        }
        i += 1;
    }
    (i, false)
}

/// The names of `list` in ascending order, each once.
pub fn sorted_names(list: Vec<String>) -> (sorted: Vec<String>)
    ensures
        ascending(names_of(sorted@)),
        names_of(sorted@).to_set() == names_of(list@).to_set(),
{
    let mut sorted: Vec<String> = Vec::new();
    let mut i: usize = 0;
    while i < list.len()
        invariant
            i <= list.len(),
            ascending(names_of(sorted@)),
            names_of(sorted@).to_set() == names_of(list@).take(i as int).to_set(),
        decreases list.len() - i,
    {
        let (p, found) = find_name(&sorted, list[i].as_str());
        let ghost before = names_of(sorted@);
        let ghost name = list[i as int]@;
        proof {
            let seen = names_of(list@).take(i as int);
            let seen_next = names_of(list@).take(i + 1);
            assert(seen_next =~= seen.push(name));
            assert forall|n: Seq<char>| seen_next.to_set().contains(n) <==> seen.to_set().insert(
                name,
            ).contains(n) by {
                if seen.contains(n) {
                    let k = choose|k: int| 0 <= k < seen.len() && seen[k] == n;
                    assert(seen_next[k] == n);
                }
                if n == name {
                    assert(seen_next[i as int] == n);
                }
                if seen_next.contains(n) {
                    let k = choose|k: int| 0 <= k < seen_next.len() && seen_next[k] == n;
                    if k < i {
                        assert(seen[k] == n);
                    }
                }
            }
            assert(seen_next.to_set() =~= seen.to_set().insert(name));
        }
        if !found {
            sorted.insert(p, list[i].clone());
            proof {
                assert(names_of(sorted@) =~= before.insert(p as int, name));
                lemma_ascending_insert(before, p as int, name);
            }
        } else {
            proof {
                assert(before.contains(name));
                assert(before.to_set().insert(name) =~= before.to_set());
            }
        }
        i += 1;
    }
    proof {
        assert(names_of(list@).take(list.len() as int) =~= names_of(list@));
    }
    sorted
}

} // verus!
