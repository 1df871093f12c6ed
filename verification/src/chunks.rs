//! The capture files of a sigrok session: one archive entry, or numbered
//! chunks `NAME-1`, `NAME-2`, ... to be read in the order of their numbers.
use vstd::prelude::*;
use crate::order::{bytes_lt, lemma_lex_total, lemma_lex_trans, lex_lt};
use crate::zip::{ZipEntryInfo, ZipEntryView, distinct_names, bytes_equal};

verus! {

/// Decimal value of ASCII digits.
pub open spec fn digits_val(s: Seq<u8>) -> nat
    decreases s.len(),
{
    if s.len() == 0 {
        0
    } else {
        digits_val(s.drop_last()) * 10 + (s.last() - 48) as nat
    }
}

/// The chunk number of an entry named `name` for the capture file
/// `prefix`: the name is the prefix, `-`, and fewer than ten ASCII digits.
pub open spec fn chunk_number(name: Seq<u8>, prefix: Seq<u8>) -> Option<nat> {
    let n = prefix.len() + 1;
    if n <= name.len() && name.subrange(0, prefix.len() as int) == prefix && name[prefix.len() as int]
        == 45 && name.len() - n < 10 && forall|i: int| n <= i < name.len() ==> 48 <= #[trigger] name[i]
        <= 57 {
        Some(digits_val(name.subrange(n as int, name.len() as int)))
    } else {
        None
    }
}

/// The order of chunks: by number, then by name.
pub open spec fn chunk_lt(a: ZipEntryView, b: ZipEntryView, prefix: Seq<u8>) -> bool {
    let x = chunk_number(a.name, prefix)->0;
    let y = chunk_number(b.name, prefix)->0;
    x < y || (x == y && lex_lt(a.name, b.name))
}

/// The entries that are not chunks of `prefix`, in order.
pub open spec fn non_chunks(es: Seq<ZipEntryView>, prefix: Seq<u8>) -> Seq<ZipEntryView>
    decreases es.len(),
{
    if es.len() == 0 {
        es
    } else if chunk_number(es.last().name, prefix) is Some {
        non_chunks(es.drop_last(), prefix)
    } else {
        non_chunks(es.drop_last(), prefix).push(es.last())
    }
}

/// The views of a list of entries.
pub open spec fn entries_view(es: Seq<ZipEntryInfo>) -> Seq<ZipEntryView> {
    es.map_values(|e: ZipEntryInfo| e@)
}

/// The chunk number of `name` for `prefix`, if it is a chunk.
fn chunk_number_of(name: &[u8], prefix: &[u8]) -> (res: Option<u32>)
    ensures
        match chunk_number(name@, prefix@) {
            Some(k) => res == Some(k as u32) && k < 1_000_000_000,
            None => res is None,
        },
{
    if prefix.len() >= name.len() {
        return None;
    }
    let n = prefix.len() + 1;
    if name[prefix.len()] != 45 || name.len() - n >= 10 {
        return None;
    }
    if !bytes_equal(vstd::slice::slice_subrange(name, 0, prefix.len()), prefix) {
        return None;
    }
    let mut v: u32 = 0;
    let mut i: usize = n;
    assert(name@.subrange(0, prefix@.len() as int) == prefix@);
    while i < name.len()
        invariant
            n == prefix@.len() + 1,
            name@.subrange(0, prefix@.len() as int) == prefix@,
            name@[prefix@.len() as int] == 45,
            n <= i <= name@.len(),
            name@.len() - n < 10,
            forall|j: int| n <= j < i ==> 48 <= #[trigger] name@[j] <= 57,
            v == digits_val(name@.subrange(n as int, i as int)),
            v < pow10_nat((i - n) as nat),
        decreases name@.len() - i,
    {
        let c = name[i];
        if c < 48 || c > 57 {
            assert(!(48 <= name@[i as int] <= 57));
            assert(!(forall|j: int| n <= j < name@.len() ==> 48 <= #[trigger] name@[j] <= 57));
            return None;
        }
        assert(name@.subrange(n as int, i + 1).drop_last() =~= name@.subrange(n as int, i as int));
        proof {
            assert(pow10_nat((i + 1 - n) as nat) == 10 * pow10_nat((i - n) as nat));
            lemma_pow10_small((i + 1 - n) as nat);
        }
        v = v * 10 + (c - 48) as u32;
        i = i + 1;
    }
    proof {
        lemma_pow10_small((i - n) as nat);
    }
    Some(v)
}

/// `10^k`.
pub open spec fn pow10_nat(k: nat) -> nat
    decreases k,
{
    if k == 0 {
        1
    } else {
        10 * pow10_nat((k - 1) as nat)
    }
}

proof fn lemma_pow10_small(k: nat)
    requires
        k <= 9,
    ensures
        pow10_nat(k) <= 1_000_000_000,
    decreases k,
{
    reveal_with_fuel(pow10_nat, 10);
    if k == 0 {
    } else if k == 1 {
    } else if k == 2 {
    } else if k == 3 {
    } else if k == 4 {
    } else if k == 5 {
    } else if k == 6 {
    } else if k == 7 {
    } else if k == 8 {
    } else {
        assert(pow10_nat(9) == 1_000_000_000);
    }
}

/// `s` is strictly increasing in chunk order.
pub open spec fn chunks_sorted(s: Seq<ZipEntryView>, prefix: Seq<u8>) -> bool {
    forall|a: int, b: int|
        0 <= a < b < s.len() ==> chunk_lt(#[trigger] s[a], #[trigger] s[b], prefix)
}

/// Chunk order is transitive.
pub proof fn lemma_chunk_lt_trans(x: ZipEntryView, y: ZipEntryView, z: ZipEntryView, prefix: Seq<u8>)
    requires
        chunk_lt(x, y, prefix),
        chunk_lt(y, z, prefix),
    ensures
        chunk_lt(x, z, prefix),
{
    let a = chunk_number(x.name, prefix)->0;
    let b = chunk_number(y.name, prefix)->0;
    let c = chunk_number(z.name, prefix)->0;
    if a == b && b == c {
        lemma_lex_trans(x.name, y.name, z.name);
    }
}

/// Chunk order is a strict total order on entries with distinct names.
pub proof fn lemma_chunk_lt_total(x: ZipEntryView, y: ZipEntryView, prefix: Seq<u8>)
    ensures
        !chunk_lt(x, x, prefix),
        x.name != y.name ==> chunk_lt(x, y, prefix) || chunk_lt(y, x, prefix),
        !(chunk_lt(x, y, prefix) && chunk_lt(y, x, prefix)),
{
    lemma_lex_total(x.name, y.name);
    lemma_lex_total(x.name, x.name);
}

proof fn lemma_insert_contains(s: Seq<ZipEntryView>, p: int, x: ZipEntryView)
    requires
        0 <= p <= s.len(),
    ensures
        s.insert(p, x).contains(x),
        forall|y: ZipEntryView| s.contains(y) ==> #[trigger] s.insert(p, x).contains(y),
{
    assert(s.insert(p, x)[p] == x);
    assert forall|y: ZipEntryView| s.contains(y) implies #[trigger] s.insert(p, x).contains(y) by {
        let a = choose|a: int| 0 <= a < s.len() && s[a] == y;
        if a < p {
            assert(s.insert(p, x)[a] == y);
        } else {
            assert(s.insert(p, x)[a + 1] == y);
        }
    }
}

proof fn lemma_sorted_insert(s: Seq<ZipEntryView>, p: int, x: ZipEntryView, prefix: Seq<u8>)
    requires
        0 <= p <= s.len(),
        chunks_sorted(s, prefix),
        forall|a: int| 0 <= a < p ==> chunk_lt(#[trigger] s[a], x, prefix),
        forall|a: int| p <= a < s.len() ==> chunk_lt(x, #[trigger] s[a], prefix),
    ensures
        chunks_sorted(s.insert(p, x), prefix),
{
    let t = s.insert(p, x);
    assert forall|a: int, b: int| 0 <= a < b < t.len() implies chunk_lt(#[trigger] t[a], #[trigger] t[b], prefix) by {
        if a < p && b < p {
            assert(t[a] == s[a] && t[b] == s[b]);
        } else if a < p && b == p {
            assert(t[a] == s[a]);
        } else if a < p {
            assert(t[a] == s[a] && t[b] == s[b - 1]);
        } else if a == p {
            assert(t[b] == s[b - 1]);
        } else {
            assert(t[a] == s[a - 1] && t[b] == s[b - 1]);
        }
    }
}

/// `a` comes before `b` in chunk order.
fn chunk_before(a: &ZipEntryInfo, b: &ZipEntryInfo, prefix: &[u8]) -> (res: bool)
    requires
        chunk_number(a@.name, prefix@) is Some,
        chunk_number(b@.name, prefix@) is Some,
    ensures
        res == chunk_lt(a@, b@, prefix@),
{
    let x = chunk_number_of(a.name.as_slice(), prefix);
    let y = chunk_number_of(b.name.as_slice(), prefix);
    match (x, y) {
        (Some(x), Some(y)) => x < y || (x == y && bytes_lt(a.name.as_slice(), b.name.as_slice())),
        _ => false,
    }
}

/// Takes the capture file `prefix` out of `entries`.
///
/// An entry named exactly `prefix` is removed and returned alone. Otherwise
/// every entry named `prefix`, `-` and fewer than ten digits is removed, and
/// these chunks are returned in the order of their numbers (equal numbers,
/// such as `-01` and `-1`, by name). The other entries keep their order.
pub fn find_chunks(entries: &mut Vec<ZipEntryInfo>, prefix: &[u8]) -> (res: Vec<ZipEntryInfo>)
    requires
        distinct_names(entries_view(old(entries)@)),
        (exists|i: int| 0 <= i < old(entries)@.len() && #[trigger] old(entries)@[i]@.name == prefix@)
            || (forall|i: int|
            0 <= i < old(entries)@.len() ==> #[trigger] old(entries)@[i]@.name != prefix@.push(45u8)),
    ensures
        forall|i: int|
            0 <= i < old(entries)@.len() && #[trigger] old(entries)@[i]@.name == prefix@ ==> (
            entries_view(res@) == seq![old(entries)@[i]@] && entries_view(final(entries)@)
                == entries_view(old(entries)@).remove(i)),
        (forall|i: int| 0 <= i < old(entries)@.len() ==> #[trigger] old(entries)@[i]@.name != prefix@)
            ==> (entries_view(final(entries)@) == non_chunks(entries_view(old(entries)@), prefix@)
            && chunks_sorted(entries_view(res@), prefix@) && (forall|a: int|
            0 <= a < res@.len() ==> chunk_number(res@[a]@.name, prefix@) is Some && entries_view(
                old(entries)@,
            ).contains(#[trigger] res@[a]@)) && (forall|i: int|
            0 <= i < old(entries)@.len() && chunk_number(old(entries)@[i]@.name, prefix@) is Some
                ==> entries_view(res@).contains(#[trigger] old(entries)@[i]@))),
{
    let ghost old_v = entries_view(entries@);
    let mut i: usize = 0;
    while i < entries.len()
        invariant
            entries@ == old(entries)@,
            old_v == entries_view(old(entries)@),
            distinct_names(old_v),
            i <= entries@.len(),
            forall|j: int| 0 <= j < i ==> #[trigger] entries@[j]@.name != prefix@,
        decreases entries@.len() - i,
    {
        if bytes_equal(entries[i].name.as_slice(), prefix) {
            let e = entries.remove(i);
            let mut single: Vec<ZipEntryInfo> = Vec::new();
            single.push(e);
            proof {
                assert(old(entries)@[i as int]@.name == prefix@);
                assert(entries_view(entries@) =~= old_v.remove(i as int));
                assert(entries_view(single@) =~= seq![old(entries)@[i as int]@]);
                assert forall|j: int|
                    0 <= j < old(entries)@.len() && #[trigger] old(entries)@[j]@.name == prefix@ implies j == i by {
                    if j != i {
                        assert(old_v[j].name != old_v[i as int].name);
                    }
                }
            }
            return single;
        }
        i = i + 1;
    }
    assert(forall|j: int| 0 <= j < old_v.len() ==> #[trigger] old_v[j].name != prefix@);
    let mut rest: Vec<ZipEntryInfo> = Vec::new();
    std::mem::swap(entries, &mut rest);
    let mut res: Vec<ZipEntryInfo> = Vec::new();
    let ghost mut k: int = 0;
    proof {
        assert(entries_view(rest@) =~= old_v.subrange(0, old_v.len() as int));
        assert(old_v.subrange(0, 0) =~= Seq::<ZipEntryView>::empty());
        assert(entries_view(entries@) =~= Seq::<ZipEntryView>::empty());
        assert(entries_view(res@) =~= Seq::<ZipEntryView>::empty());
    }
    while rest.len() > 0
        invariant
            0 <= k <= old_v.len(),
            old_v == entries_view(old(entries)@),
            distinct_names(old_v),
            forall|j: int| 0 <= j < old_v.len() ==> #[trigger] old_v[j].name != prefix@,
            entries_view(rest@) == old_v.subrange(k, old_v.len() as int),
            entries_view(entries@) == non_chunks(old_v.subrange(0, k), prefix@),
            chunks_sorted(entries_view(res@), prefix@),
            forall|a: int|
                0 <= a < res@.len() ==> chunk_number(res@[a]@.name, prefix@) is Some && old_v.subrange(
                    0,
                    k,
                ).contains(#[trigger] res@[a]@),
            forall|j: int|
                0 <= j < k && chunk_number(old_v[j].name, prefix@) is Some ==> entries_view(
                    res@,
                ).contains(#[trigger] old_v[j]),
        decreases rest@.len(),
    {
        let ghost old_rest = rest@;
        assert(entries_view(old_rest).len() == old_rest.len());
        assert(entries_view(old_rest)[0] == old_rest[0]@);
        let e = rest.remove(0);
        let ghost ev = e@;
        proof {
            assert forall|j: int| 0 <= j < rest@.len() implies #[trigger] entries_view(rest@)[j]
                == old_v.subrange(k + 1, old_v.len() as int)[j] by {
                assert(entries_view(old_rest)[j + 1] == old_rest[j + 1]@);
                assert(old_v.subrange(k, old_v.len() as int)[j + 1] == old_v[k + 1 + j]);
            }
            assert(entries_view(rest@) =~= old_v.subrange(k + 1, old_v.len() as int));
            assert(ev == old_v[k]);
            assert(old_v.subrange(0, k + 1).drop_last() =~= old_v.subrange(0, k));
            assert(old_v.subrange(0, k + 1).last() == old_v[k]);
        }
        match chunk_number_of(e.name.as_slice(), prefix) {
            None => {
                entries.push(e);
                proof {
                    assert(entries_view(entries@) =~= non_chunks(old_v.subrange(0, k), prefix@).push(ev));
                    assert forall|a: int| 0 <= a < res@.len() implies old_v.subrange(0, k + 1).contains(
                        #[trigger] res@[a]@,
                    ) by {
                        let c = choose|c: int| 0 <= c < k && old_v.subrange(0, k)[c] == res@[a]@;
                        assert(old_v.subrange(0, k + 1)[c] == res@[a]@);
                    }
                }
            },
            Some(_) => {
                let ghost rv = entries_view(res@);
                let mut p: usize = 0;
                while p < res.len() && chunk_before(&res[p], &e, prefix)
                    invariant
                        p <= res@.len(),
                        rv == entries_view(res@),
                        e@ == ev,
                        chunk_number(ev.name, prefix@) is Some,
                        forall|a: int| 0 <= a < res@.len() ==> chunk_number(#[trigger] res@[a]@.name, prefix@) is Some,
                        forall|a: int| 0 <= a < p ==> chunk_lt(#[trigger] rv[a], ev, prefix@),
                    decreases res@.len() - p,
                {
                    p = p + 1;
                }
                proof {
                    if p < res@.len() {
                        let c = choose|c: int| 0 <= c < k && old_v.subrange(0, k)[c] == res@[p as int]@;
                        assert(old_v[c] == rv[p as int]);
                        assert(old_v[c].name != old_v[k].name);
                        lemma_chunk_lt_total(rv[p as int], ev, prefix@);
                        assert forall|a: int| p <= a < rv.len() implies chunk_lt(ev, #[trigger] rv[a], prefix@) by {
                            if a > p {
                                lemma_chunk_lt_trans(ev, rv[p as int], rv[a], prefix@);
                            }
                        }
                    }
                    lemma_sorted_insert(rv, p as int, ev, prefix@);
                    lemma_insert_contains(rv, p as int, ev);
                }
                res.insert(p, e);
                proof {
                    assert(entries_view(res@) =~= rv.insert(p as int, ev));
                    assert forall|a: int| 0 <= a < res@.len() implies chunk_number(res@[a]@.name, prefix@) is Some
                        && old_v.subrange(0, k + 1).contains(#[trigger] res@[a]@) by {
                        if a == p {
                            assert(old_v.subrange(0, k + 1)[k] == ev);
                        } else {
                            let b = if a < p { a } else { a - 1 };
                            assert(res@[a]@ == rv[b]);
                            let c = choose|c: int| 0 <= c < k && old_v.subrange(0, k)[c] == rv[b];
                            assert(old_v.subrange(0, k + 1)[c] == rv[b]);
                        }
                    }
                }
            },
        }
        proof {
            assert forall|j: int|
                0 <= j < k + 1 && chunk_number(old_v[j].name, prefix@) is Some implies entries_view(
                    res@,
                ).contains(#[trigger] old_v[j]) by {
            }
            k = k + 1;
        }
    }
    proof {
        assert(entries_view(rest@).len() == rest@.len());
        assert(old_v.subrange(0, k) =~= old_v);
        assert(forall|j: int| 0 <= j < old_v.len() ==> #[trigger] old(entries)@[j]@ == old_v[j]);
    }
    res
}

} // verus!
