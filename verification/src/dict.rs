//! The entries of a Neovim map value: sorted by key, one entry per key, and of
//! several values given for one key the last one kept.

use vstd::prelude::*;

use crate::nvim::{entries_well_formed, lookup, well_formed, NvimValue};
use crate::text::chars_of;

verus! {

broadcast use vstd::string::group_string_axioms;

/// `a` sorts before `b`: character by character by code point, a proper prefix
/// first. This is the order of `String`'s `Ord`, which compares the UTF-8 bytes,
/// and UTF-8 keeps the order of code points.
pub open spec fn key_less(a: Seq<char>, b: Seq<char>) -> bool
    decreases a.len(),
{
    if a.len() == 0 {
        b.len() > 0
    } else if b.len() == 0 {
        false
    } else if a[0] != b[0] {
        (a[0] as int) < (b[0] as int)
    } else {
        key_less(a.drop_first(), b.drop_first())
    }
}

/// The keys of `entries` strictly ascend (so no key occurs twice).
pub open spec fn keys_ascending(entries: Seq<(String, NvimValue)>) -> bool {
    forall|i: int, j: int|
        0 <= i < j < entries.len() ==> key_less(#[trigger] entries[i].0@, #[trigger] entries[j].0@)
}

/// The value of the last entry whose key is `k`.
pub open spec fn last_value(entries: Seq<(String, NvimValue)>, k: Seq<char>) -> Option<NvimValue>
    decreases entries.len(),
{
    if entries.len() == 0 {
        None
    } else if entries.last().0@ == k {
        Some(entries.last().1)
    } else {
        last_value(entries.drop_last(), k)
    }
}

/// No key sorts before itself.
pub proof fn lemma_key_less_irreflexive(a: Seq<char>)
    ensures
        !key_less(a, a),
    decreases a.len(),
{
    if a.len() > 0 {
        lemma_key_less_irreflexive(a.drop_first());
    }
}

/// The key order is transitive.
pub proof fn lemma_key_less_transitive(a: Seq<char>, b: Seq<char>, c: Seq<char>)
    requires
        key_less(a, b),
        key_less(b, c),
    ensures
        key_less(a, c),
    decreases a.len(),
{
    if a.len() > 0 && b.len() > 0 && c.len() > 0 && a[0] == b[0] && b[0] == c[0] {
        lemma_key_less_transitive(a.drop_first(), b.drop_first(), c.drop_first());
    }
}

/// Of two different keys, one sorts before the other.
pub proof fn lemma_key_less_total(a: Seq<char>, b: Seq<char>)
    requires
        a != b,
    ensures
        key_less(a, b) || key_less(b, a),
    decreases a.len(),
{
    if a.len() > 0 && b.len() > 0 && a[0] == b[0] {
        if a.drop_first() == b.drop_first() {
            assert(a =~= seq![a[0]] + a.drop_first());
            assert(b =~= seq![b[0]] + b.drop_first());
        }
        lemma_key_less_total(a.drop_first(), b.drop_first());
    } else if a.len() > 0 && b.len() > 0 {
        assert((a[0] as int) != (b[0] as int));
    } else if a.len() == 0 && b.len() == 0 {
        assert(a =~= b);
    }
}

/// In entries with ascending keys, a key finds its own entry.
pub proof fn lemma_lookup_found(s: Seq<(String, NvimValue)>, i: int)
    requires
        keys_ascending(s),
        0 <= i < s.len(),
    ensures
        lookup(s, s[i].0@) == Some(s[i].1),
    decreases i,
{
    if i > 0 {
        assert(key_less(s[0].0@, s[i].0@));
        lemma_key_less_irreflexive(s[i].0@);
        assert(s.drop_first()[i - 1] == s[i]);
        assert(keys_ascending(s.drop_first())) by {
            assert forall|a: int, b: int| 0 <= a < b < s.drop_first().len() implies key_less(
                #[trigger] s.drop_first()[a].0@,
                #[trigger] s.drop_first()[b].0@,
            ) by {
                assert(s.drop_first()[a] == s[a + 1]);
                assert(s.drop_first()[b] == s[b + 1]);
            }
        }
        lemma_lookup_found(s.drop_first(), i - 1);
    }
}

/// A key that no entry carries is not found.
pub proof fn lemma_lookup_absent(s: Seq<(String, NvimValue)>, k: Seq<char>)
    requires
        forall|i: int| 0 <= i < s.len() ==> (#[trigger] s[i]).0@ != k,
    ensures
        lookup(s, k) is None,
    decreases s.len(),
{
    if s.len() > 0 {
        assert(s[0].0@ != k);
        assert forall|i: int| 0 <= i < s.drop_first().len() implies (#[trigger] s.drop_first()[i]).0@
            != k by {
            assert(s.drop_first()[i] == s[i + 1]);
        }
        lemma_lookup_absent(s.drop_first(), k);
    }
}

/// Inserting an entry for one key leaves what every other key finds.
pub proof fn lemma_lookup_insert_other(s: Seq<(String, NvimValue)>, i: int, e: (String, NvimValue), k: Seq<char>)
    requires
        0 <= i <= s.len(),
        e.0@ != k,
    ensures
        lookup(s.insert(i, e), k) == lookup(s, k),
    decreases i,
{
    let t = s.insert(i, e);
    if i == 0 {
        assert(t.drop_first() =~= s);
    } else {
        assert(t[0] == s[0]);
        assert(t.drop_first() =~= s.drop_first().insert(i - 1, e));
        lemma_lookup_insert_other(s.drop_first(), i - 1, e, k);
    }
}

/// Putting an entry in front of later ones: a later entry for a key still wins.
pub proof fn lemma_last_value_prepend(e: (String, NvimValue), p: Seq<(String, NvimValue)>, k: Seq<char>)
    ensures
        last_value(seq![e] + p, k) == (match last_value(p, k) {
            Some(v) => Some(v),
            None => if e.0@ == k {
                Some(e.1)
            } else {
                None
            },
        }),
    decreases p.len(),
{
    let t = seq![e] + p;
    if p.len() == 0 {
        assert(t.len() == 1 && t.last() == e);
        assert(t.drop_last() =~= p);
        assert(last_value(p, k) is None);
    } else {
        assert(t.last() == p.last());
        assert(t.drop_last() =~= seq![e] + p.drop_last());
        lemma_last_value_prepend(e, p.drop_last(), k);
        if p.last().0@ != k {
            assert(last_value(t, k) == last_value(seq![e] + p.drop_last(), k));
        }
    }
}

/// The value of the last entry for a key is the value of one of the entries.
pub proof fn lemma_last_value_from(entries: Seq<(String, NvimValue)>, k: Seq<char>)
    ensures
        last_value(entries, k) matches Some(v) ==> exists|j: int|
            0 <= j < entries.len() && #[trigger] entries[j].1 == v,
    decreases entries.len(),
{
    if entries.len() > 0 && entries.last().0@ != k {
        lemma_last_value_from(entries.drop_last(), k);
        if let Some(v) = last_value(entries, k) {
            let j = choose|j: int| 0 <= j < entries.drop_last().len() && #[trigger] entries.drop_last()[j].1 == v;
            assert(entries[j] == entries.drop_last()[j]);
        }
    } else if entries.len() > 0 {
        assert(entries[entries.len() - 1] == entries.last());
    }
}

/// Entries whose values are each well formed are well formed together.
pub proof fn lemma_entries_well_formed(entries: Seq<(String, NvimValue)>, n: nat)
    requires
        n <= entries.len(),
        forall|i: int| 0 <= i < n ==> well_formed(#[trigger] entries[i].1),
    ensures
        entries_well_formed(entries, n),
    decreases n,
{
    if n > 0 {
        lemma_entries_well_formed(entries, (n - 1) as nat);
    }
}

/// Whether `a` sorts before `b` in the order `key_less` defines.
pub fn key_lt(a: &str, b: &str) -> (r: bool)
    ensures
        r == key_less(a@, b@),
{
    let x = chars_of(a);
    let y = chars_of(b);
    let mut i: usize = 0;
    assert(a@.skip(0) =~= a@);
    assert(b@.skip(0) =~= b@);
    while i < x.len() && i < y.len()
        invariant
            x@ == a@,
            y@ == b@,
            i <= x.len(),
            i <= y.len(),
            key_less(a@, b@) == key_less(a@.skip(i as int), b@.skip(i as int)),
        decreases x.len() - i,
    {
        if x[i] != y[i] {
            return x[i] < y[i];
        }
        assert(a@.skip(i as int).drop_first() =~= a@.skip(i + 1));
        assert(b@.skip(i as int).drop_first() =~= b@.skip(i + 1));
        i += 1;
    }
    i == x.len() && i < y.len()
}

/// The map value with `entries` sorted by key, keeping for each key the value of
/// its last entry.
pub fn dict_from_entries(entries: Vec<(String, NvimValue)>) -> (v: NvimValue)
    ensures
        v matches NvimValue::Dict(r) && keys_ascending(r@) && forall|k: Seq<char>|
            #[trigger] lookup(r@, k) == last_value(entries@, k),
        (forall|i: int| 0 <= i < entries@.len() ==> well_formed(#[trigger] entries@[i].1)) ==> well_formed(
            v,
        ),
{
    let ghost given = entries@;
    let ghost mut processed: Seq<(String, NvimValue)> = Seq::empty();
    let mut rest = entries;
    let mut out: Vec<(String, NvimValue)> = Vec::new();
    assert(given =~= rest@ + processed);
    while rest.len() > 0
        invariant
            given == rest@ + processed,
            keys_ascending(out@),
            forall|k: Seq<char>| #[trigger] lookup(out@, k) == last_value(processed, k),
        decreases rest.len(),
    {
        let ghost before = rest@;
        let e = rest.pop().unwrap();
        let ghost eg = e;
        let ghost old_out = out@;
        let ghost old_processed = processed;
        proof {
            assert(before == rest@.push(e));
            processed = seq![e] + processed;
            assert(given =~= rest@ + processed);
        }
        let mut i: usize = 0;
        while i < out.len() && key_lt(out[i].0.as_str(), e.0.as_str())
            invariant
                out@ == old_out,
                i <= out.len(),
                forall|j: int| 0 <= j < i ==> key_less((#[trigger] out@[j]).0@, e.0@),
            decreases out.len() - i,
        {
            i += 1;
        }
        let present = i < out.len() && crate::text::str_equal(out[i].0.as_str(), e.0.as_str());
        proof {
            assert forall|j: int| 0 <= j < i implies (#[trigger] old_out[j]).0@ != e.0@ by {
                lemma_key_less_irreflexive(e.0@);
            }
        }
        if present {
            proof {
                lemma_lookup_found(old_out, i as int);
                assert forall|k: Seq<char>| #[trigger] lookup(out@, k) == last_value(processed, k) by {
                    lemma_last_value_prepend(e, old_processed, k);
                }
            }
        } else {
            proof {
                if i < old_out.len() {
                    assert(!key_less(old_out[i as int].0@, e.0@));
                    assert(old_out[i as int].0@ != e.0@);
                    lemma_key_less_total(old_out[i as int].0@, e.0@);
                }
                assert forall|j: int| i <= j < old_out.len() implies key_less(
                    e.0@,
                    (#[trigger] old_out[j]).0@,
                ) by {
                    if j > i {
                        lemma_key_less_transitive(e.0@, old_out[i as int].0@, old_out[j].0@);
                    }
                }
                assert forall|j: int| 0 <= j < old_out.len() implies (#[trigger] old_out[j]).0@ != e.0@ by {
                    if j >= i {
                        lemma_key_less_irreflexive(e.0@);
                    }
                }
                lemma_lookup_absent(old_out, e.0@);
            }
            let ghost key = e.0@;
            out.insert(i, e);
            proof {
                let t = old_out.insert(i as int, eg);
                assert(out@ == t);
                assert forall|a: int, b: int| 0 <= a < b < t.len() implies key_less(
                    #[trigger] t[a].0@,
                    #[trigger] t[b].0@,
                ) by {
                    if b < i {
                        assert(t[a] == old_out[a] && t[b] == old_out[b]);
                    } else if b == i {
                        assert(t[a] == old_out[a]);
                    } else if a < i {
                        assert(t[a] == old_out[a] && t[b] == old_out[b - 1]);
                        lemma_key_less_transitive(t[a].0@, key, t[b].0@);
                    } else if a == i {
                        assert(t[b] == old_out[b - 1]);
                    } else {
                        assert(t[a] == old_out[a - 1] && t[b] == old_out[b - 1]);
                    }
                }
                assert forall|k: Seq<char>| #[trigger] lookup(out@, k) == last_value(processed, k) by {
                    lemma_last_value_prepend(eg, old_processed, k);
                    if k == key {
                        assert(t[i as int] == eg);
                        lemma_lookup_found(t, i as int);
                    } else {
                        lemma_lookup_insert_other(old_out, i as int, eg, k);
                    }
                }
            }
        }
    }
    proof {
        assert(given =~= processed);
        if forall|i: int| 0 <= i < given.len() ==> well_formed(#[trigger] given[i].1) {
            assert forall|i: int| 0 <= i < out@.len() implies well_formed(#[trigger] out@[i].1) by {
                lemma_lookup_found(out@, i);
                lemma_last_value_from(given, out@[i].0@);
                let j = choose|j: int| 0 <= j < given.len() && #[trigger] given[j].1 == out@[i].1;
            }
            lemma_entries_well_formed(out@, out@.len());
        }
    }
    NvimValue::Dict(out)
}

} // verus!
