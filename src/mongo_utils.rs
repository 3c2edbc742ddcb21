//! Restoring the order of a batch lookup in the catalog store.
//!
//! The store answers a set-containment query in an order of its own. The
//! records are put back in the order of the keys that were asked for.
use crate::model::Drink;
use vstd::prelude::*;

verus! {

/// The keys of a list of strings.
pub open spec fn key_seq(urls: Seq<String>) -> Seq<Seq<char>> {
    urls.map_values(|u: String| u@)
}

/// Some fetched record has key `k`.
pub open spec fn in_store(fetched: Seq<Drink>, k: Seq<char>) -> bool {
    exists|j: int| 0 <= j < fetched.len() && (#[trigger] fetched[j]).drink_url@ == k
}

/// The position of the last fetched record with key `k`, or -1.
///
/// A key that several records share maps to the last of them, as a map
/// filled in fetch order would keep it.
pub open spec fn last_index(fetched: Seq<Drink>, k: Seq<char>) -> int
    decreases fetched.len(),
{
    if fetched.len() == 0 {
        -1
    } else if fetched.last().drink_url@ == k {
        fetched.len() - 1
    } else {
        last_index(fetched.drop_last(), k)
    }
}

/// The record that key `k` resolves to.
pub open spec fn record_for(fetched: Seq<Drink>, k: Seq<char>) -> Drink {
    fetched[last_index(fetched, k)]
}

/// Key `i` of `keys` is resolved in the store and occurs there for the
/// first time.
pub open spec fn resolves_first(keys: Seq<Seq<char>>, fetched: Seq<Drink>, i: int) -> bool {
    in_store(fetched, keys[i]) && !keys.take(i).contains(keys[i])
}

/// The records for `keys`, in key order: a key with no record is skipped,
/// and a key that occurred before yields nothing again.
pub open spec fn restored(keys: Seq<Seq<char>>, fetched: Seq<Drink>) -> Seq<Drink>
    decreases keys.len(),
{
    if keys.len() == 0 {
        seq![]
    } else {
        let prev = restored(keys.drop_last(), fetched);
        let k = keys.last();
        if in_store(fetched, k) && !keys.drop_last().contains(k) {
            prev.push(record_for(fetched, k))
        } else {
            prev
        }
    }
}

/// What `last_index` is, stated without recursion.
pub proof fn lemma_last_index(fetched: Seq<Drink>, k: Seq<char>)
    ensures
        -1 <= last_index(fetched, k) < fetched.len(),
        in_store(fetched, k) <==> last_index(fetched, k) >= 0,
        last_index(fetched, k) >= 0 ==> fetched[last_index(fetched, k)].drink_url@ == k,
        forall|j: int|
            last_index(fetched, k) < j < fetched.len() ==> (#[trigger] fetched[j]).drink_url@ != k,
    decreases fetched.len(),
{
    if fetched.len() > 0 {
        let init = fetched.drop_last();
        lemma_last_index(init, k);
        if fetched.last().drink_url@ != k {
            assert forall|j: int| 0 <= j < init.len() implies (#[trigger] fetched[j]) == init[j] by {}
            if in_store(fetched, k) {
                let j = choose|j: int| 0 <= j < fetched.len() && (#[trigger] fetched[j]).drink_url@ == k;
                assert(init[j].drink_url@ == k);
            }
            if in_store(init, k) {
                let j = choose|j: int| 0 <= j < init.len() && (#[trigger] init[j]).drink_url@ == k;
                assert(fetched[j].drink_url@ == k);
            }
        } else {
            assert(fetched[fetched.len() - 1].drink_url@ == k);
        }
    }
}

/// The slot of a fetched record is emptied once its key has been served.
spec fn slots_ok(slots: Seq<Option<Drink>>, orig: Seq<Drink>, served: Seq<Seq<char>>) -> bool {
    &&& slots.len() == orig.len()
    &&& forall|s: int|
        0 <= s < orig.len() ==> #[trigger] slots[s] == if served.contains(orig[s].drink_url@)
            && s == last_index(orig, orig[s].drink_url@) {
            None
        } else {
            Some(orig[s])
        }
}

/// Whether `k` occurs among the first `n` of `urls`.
pub(crate) fn seen_before(urls: &Vec<String>, n: usize, k: &String) -> (r: bool)
    requires
        n <= urls@.len(),
    ensures
        r == key_seq(urls@).take(n as int).contains(k@),
{
    let ghost keys = key_seq(urls@).take(n as int);
    let mut t: usize = 0;
    while t < n
        invariant
            n <= urls@.len(),
            t <= n,
            keys == key_seq(urls@).take(n as int),
            forall|t2: int| 0 <= t2 < t ==> keys[t2] != k@,
        decreases n - t,
    {
        if urls[t] == *k {
            assert(keys[t as int] == k@);
            return true;
        }
        t = t + 1;
    }
    false
}

/// Records for `urls`, in the order of `urls`, out of `fetched`, the answer
/// of the store to a query for all of them.
///
/// Keys without a record are skipped silently; a repeated key yields its
/// record only once, at its first position.
pub fn order_by_urls(urls: &Vec<String>, fetched: Vec<Drink>) -> (r: Vec<Drink>)
    ensures
        r@ == restored(key_seq(urls@), fetched@),
{
    let (drinks, _resolved) = restore_with_flags(urls, fetched);
    drinks
}

/// As `order_by_urls`, and tells for each key whether it yielded a record.
pub(crate) fn restore_with_flags(urls: &Vec<String>, fetched: Vec<Drink>) -> (r: (
    Vec<Drink>,
    Vec<bool>,
))
    ensures
        r.0@ == restored(key_seq(urls@), fetched@),
        r.1@.len() == urls@.len(),
        forall|i: int|
            0 <= i < urls@.len() ==> #[trigger] r.1@[i] == resolves_first(
                key_seq(urls@),
                fetched@,
                i,
            ),
{
    let ghost orig = fetched@;
    let ghost keys = key_seq(urls@);
    let mut rest = fetched;
    let mut slots: Vec<Option<Drink>> = Vec::new();
    while rest.len() > 0
        invariant
            slots@.len() + rest@.len() == orig.len(),
            forall|s: int| 0 <= s < slots@.len() ==> #[trigger] slots@[s] == Some(orig[s]),
            forall|t: int| 0 <= t < rest@.len() ==> #[trigger] rest@[t] == orig[slots@.len() + t],
        decreases rest@.len(),
    {
        let d = rest.remove(0);
        slots.push(Some(d));
    }
    assert(keys.take(0) =~= Seq::<Seq<char>>::empty());
    let mut out: Vec<Drink> = Vec::new();
    let mut resolved: Vec<bool> = Vec::new();
    let mut i: usize = 0;
    while i < urls.len()
        invariant
            keys == key_seq(urls@),
            i <= urls@.len(),
            resolved@.len() == i,
            forall|i2: int| 0 <= i2 < i ==> #[trigger] resolved@[i2] == resolves_first(keys, orig, i2),
            slots_ok(slots@, orig, keys.take(i as int)),
            out@ == restored(keys.take(i as int), orig),
        decreases urls@.len() - i,
    {
        let k = &urls[i];
        let ghost served = keys.take(i as int);
        let ghost next = keys.take(i + 1);
        assert(next.drop_last() =~= served);
        assert(next.last() == k@);
        assert forall|x: Seq<char>| next.contains(x) <==> (served.contains(x) || x == k@) by {
            if next.contains(x) {
                let j = choose|j: int| 0 <= j < next.len() && next[j] == x;
                if j < i {
                    assert(served[j] == x);
                }
            }
            if served.contains(x) {
                let j = choose|j: int| 0 <= j < served.len() && served[j] == x;
                assert(next[j] == x);
            }
            if x == k@ {
                assert(next[i as int] == x);
            }
        }
        proof {
            lemma_last_index(orig, k@);
        }
        if !seen_before(urls, i, k) {
            let mut s: usize = slots.len();
            let mut found: Option<usize> = None;
            while s > 0 && found.is_none()
                invariant
                    slots_ok(slots@, orig, served),
                    !served.contains(k@),
                    s <= slots@.len(),
                                        found is None ==> forall|s2: int|
                        s <= s2 < orig.len() ==> (#[trigger] orig[s2]).drink_url@ != k@,
                    found matches Some(j) ==> j == s && j < orig.len() && orig[s as int].drink_url@ == k@
                        && forall|s2: int|
                        s < s2 < orig.len() ==> (#[trigger] orig[s2]).drink_url@ != k@,
                decreases s,
            {
                s = s - 1;
                let hit = match &slots[s] {
                    Some(d) => d.drink_url == *k,
                    None => false,
                };
                if hit {
                    found = Some(s);
                }
                assert(slots@[s as int] is Some || orig[s as int].drink_url@ != k@);
            }
            match found {
                Some(j) => {
                    let ghost li = last_index(orig, k@);
                    assert(in_store(orig, k@)) by {
                        assert(orig[j as int].drink_url@ == k@);
                    }
                    assert(orig[li].drink_url@ == k@);
                    assert(j as int == li);
                    let taken = slots.remove(j);
                    slots.insert(j, None);
                    match taken {
                        Some(d) => {
                            out.push(d);
                        },
                        None => {},
                    }
                    resolved.push(true);
                    assert(slots_ok(slots@, orig, next));
                },
                None => {
                    assert(!in_store(orig, k@));
                    resolved.push(false);
                    assert(slots_ok(slots@, orig, next));
                },
            }
        } else {
            resolved.push(false);
            assert(slots_ok(slots@, orig, next));
        }
        i = i + 1;
    }
    assert(keys.take(i as int) =~= keys);
    (out, resolved)
}

} // verus!
