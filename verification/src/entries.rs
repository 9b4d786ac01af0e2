//! A small ordered map from names to values, kept as a sorted vector.
//!
//! Interface counters and watched-path timestamps are both keyed by a name and
//! read back in name order. The vector holds each name once, in string order,
//! and [`represents`] says which mathematical map it stands for.

use vstd::prelude::*;

use crate::text::{chars_eq, lemma_lex_total, lemma_lex_transitive, lex_lt, lex_lt_chars, strictly_sorted};

verus! {

pub open spec fn keys_of<V>(s: Seq<(Vec<char>, V)>) -> Seq<Seq<char>> {
    s.map_values(|e: (Vec<char>, V)| e.0@)
}

/// `s` holds exactly the entries of `m`, once each, in name order.
pub open spec fn represents<V>(s: Seq<(Vec<char>, V)>, m: Map<Seq<char>, V>) -> bool {
    &&& strictly_sorted(keys_of(s))
    &&& forall|i: int|
        0 <= i < s.len() ==> m.dom().contains(#[trigger] s[i].0@) && m[s[i].0@] == s[i].1
    &&& forall|k: Seq<char>| #[trigger] m.dom().contains(k) ==> keys_of(s).contains(k)
}

/// The index holding `key`, when `key` is present.
pub fn find_key<V>(v: &Vec<(Vec<char>, V)>, key: &Vec<char>, Ghost(m): Ghost<Map<Seq<char>, V>>) -> (r: Option<usize>)
    requires
        represents(v@, m),
    ensures
        match r {
            Some(i) => i < v.len() && v@[i as int].0@ == key@ && m.dom().contains(key@),
            None => !m.dom().contains(key@),
        },
{
    let mut i: usize = 0;
    while i < v.len()
        invariant
            i <= v.len(),
            represents(v@, m),
            forall|j: int| 0 <= j < i ==> v@[j].0@ != key@,
        decreases v.len() - i,
    {
        if chars_eq(&v[i].0, key) {
            return Some(i);
        }
        i += 1;
    }
    proof {
        if m.dom().contains(key@) {
            let k = choose|k: int| 0 <= k < keys_of(v@).len() && keys_of(v@)[k] == key@;
            assert(v@[k].0@ == key@);
        }
    }
    None
}

/// Sets `key` to `value`, adding it in order when it is new.
pub fn upsert<V>(v: &mut Vec<(Vec<char>, V)>, key: Vec<char>, value: V, Ghost(m): Ghost<Map<Seq<char>, V>>)
    requires
        represents(old(v)@, m),
    ensures
        represents(final(v)@, m.insert(key@, value)),
{
    let ghost old_s = v@;
    let ghost k = key@;
    let ghost nm = m.insert(k, value);
    let mut p: usize = 0;
    let mut searching = true;
    while searching && p < v.len()
        invariant
            p <= v.len(),
            v@ == old_s,
            k == key@,
            forall|j: int| 0 <= j < p ==> lex_lt(#[trigger] old_s[j].0@, k),
            !searching ==> p < v.len() && !lex_lt(old_s[p as int].0@, k),
        decreases v.len() - p + (if searching { 1int } else { 0int }),
    {
        let entry_key = &v[p].0;
        if lex_lt_chars(entry_key, &key) {
            p += 1;
        } else {
            searching = false;
        }
    }
    if p < v.len() && chars_eq(&v[p].0, &key) {
        v.set(p, (key, value));
        proof {
            let ns = v@;
            assert(keys_of(ns) =~= keys_of(old_s));
            assert forall|i: int| 0 <= i < ns.len() implies nm.dom().contains(#[trigger] ns[i].0@)
                && nm[ns[i].0@] == ns[i].1 by {
                if i != p {
                    assert(ns[i] == old_s[i]);
                    assert(keys_of(old_s)[i] != keys_of(old_s)[p as int] || i == p) by {
                        if i < p {
                            assert(lex_lt(keys_of(old_s)[i], keys_of(old_s)[p as int]));
                        } else {
                            assert(lex_lt(keys_of(old_s)[p as int], keys_of(old_s)[i]));
                        }
                        if keys_of(old_s)[i] == keys_of(old_s)[p as int] {
                            crate::text::lemma_lex_irreflexive(keys_of(old_s)[i]);
                        }
                    }
                    assert(ns[i].0@ != k);
                }
            }
            assert forall|x: Seq<char>| #[trigger] nm.dom().contains(x) implies keys_of(ns).contains(x) by {
                if x == k {
                    assert(keys_of(ns)[p as int] == x);
                } else {
                    assert(keys_of(old_s).contains(x));
                }
            }
        }
        return;
    }
    proof {
        if p < v.len() {
            assert(!lex_lt(old_s[p as int].0@, k));
            lemma_lex_total(old_s[p as int].0@, k);
        }
    }
    v.insert(p, (key, value));
    proof {
        let ns = v@;
        assert(ns =~= old_s.insert(p as int, (ns[p as int].0, value)));
        assert(ns[p as int].0@ == k);
        let ks = keys_of(ns);
        let oks = keys_of(old_s);
        assert(ks =~= oks.insert(p as int, k));
        assert forall|i: int, j: int| 0 <= i < j < ks.len() implies lex_lt(
            #[trigger] ks[i],
            #[trigger] ks[j],
        ) by {
            if j < p {
                assert(ks[i] == oks[i] && ks[j] == oks[j]);
            } else if j == p {
                assert(ks[i] == oks[i]);
                assert(old_s[i].0@ == oks[i]);
            } else if i == p {
                assert(ks[j] == oks[j - 1]);
                if j - 1 > p {
                    lemma_lex_transitive(k, oks[p as int], oks[j - 1]);
                }
            } else if i < p {
                assert(ks[i] == oks[i] && ks[j] == oks[j - 1]);
            } else {
                assert(ks[i] == oks[i - 1] && ks[j] == oks[j - 1]);
            }
        }
        assert forall|i: int| 0 <= i < ns.len() implies nm.dom().contains(#[trigger] ns[i].0@)
            && nm[ns[i].0@] == ns[i].1 by {
            if i < p {
                assert(ns[i] == old_s[i]);
                assert(lex_lt(old_s[i].0@, k));
                if old_s[i].0@ == k {
                    crate::text::lemma_lex_irreflexive(k);
                }
            } else if i > p {
                assert(ns[i] == old_s[i - 1]);
                assert(ks[p as int] == k && ks[i] == ns[i].0@);
                assert(lex_lt(k, ns[i].0@));
                if ns[i].0@ == k {
                    crate::text::lemma_lex_irreflexive(k);
                }
            }
        }
        assert forall|x: Seq<char>| #[trigger] nm.dom().contains(x) implies keys_of(ns).contains(x) by {
            if x == k {
                assert(ks[p as int] == x);
            } else {
                assert(m.dom().contains(x));
                assert(oks.contains(x));
                let q = choose|q: int| 0 <= q < oks.len() && oks[q] == x;
                if q < p {
                    assert(ks[q] == x);
                } else {
                    assert(ks[q + 1] == x);
                }
            }
        }
    }
}

/// Removes `key` when it is present.
pub fn remove_key<V>(v: &mut Vec<(Vec<char>, V)>, key: &Vec<char>, Ghost(m): Ghost<Map<Seq<char>, V>>)
    requires
        represents(old(v)@, m),
    ensures
        represents(final(v)@, m.remove(key@)),
{
    let found = find_key(v, key, Ghost(m));
    let ghost old_s = v@;
    let ghost nm = m.remove(key@);
    match found {
        None => {
            assert(nm =~= m);
        },
        Some(p) => {
            v.remove(p);
            proof {
                let ns = v@;
                let ks = keys_of(ns);
                let oks = keys_of(old_s);
                assert(ns =~= old_s.remove(p as int));
                assert(ks =~= oks.remove(p as int));
                assert forall|i: int, j: int| 0 <= i < j < ks.len() implies lex_lt(
                    #[trigger] ks[i],
                    #[trigger] ks[j],
                ) by {
                    if j < p {
                        assert(ks[i] == oks[i] && ks[j] == oks[j]);
                    } else if i < p {
                        assert(ks[i] == oks[i] && ks[j] == oks[j + 1]);
                    } else {
                        assert(ks[i] == oks[i + 1] && ks[j] == oks[j + 1]);
                    }
                }
                assert forall|i: int| 0 <= i < ns.len() implies nm.dom().contains(#[trigger] ns[i].0@)
                    && nm[ns[i].0@] == ns[i].1 by {
                    let oi = if i < p { i } else { i + 1 };
                    assert(ns[i] == old_s[oi]);
                    if ns[i].0@ == key@ {
                        assert(oks[oi] == oks[p as int]);
                        if oi < p {
                            assert(lex_lt(oks[oi], oks[p as int]));
                        } else {
                            assert(lex_lt(oks[p as int], oks[oi]));
                        }
                        crate::text::lemma_lex_irreflexive(oks[p as int]);
                    }
                }
                assert forall|x: Seq<char>| #[trigger] nm.dom().contains(x) implies ks.contains(x) by {
                    assert(oks.contains(x));
                    let q = choose|q: int| 0 <= q < oks.len() && oks[q] == x;
                    assert(q != p);
                    if q < p {
                        assert(ks[q] == x);
                    } else {
                        assert(ks[q - 1] == x);
                    }
                }
            }
        },
    }
}

} // verus!
