use vstd::prelude::*;

use crate::order::NameOrder;
use crate::order::compare_names;
use crate::order::lemma_lex_transitive;
use crate::order::lemma_lex_trichotomy;
use crate::order::lex_lt;
use crate::sanitize::ends_txt_ci;
use crate::sanitize::txt_suffix_ci;

verus! {

/// What the store's directory shows of one entry: its name, and whether
/// the entry is a regular file rather than a subdirectory or the like.
pub struct DirEntry {
    pub name: String,
    pub is_file: bool,
}

/// The character sequences of a vector of names.
pub open spec fn views_of(v: Seq<String>) -> Seq<Seq<char>> {
    v.map_values(|s: String| s@)
}

/// Names in strictly ascending lexicographic order, hence without
/// duplicates.
pub open spec fn strictly_sorted(names: Seq<Seq<char>>) -> bool {
    forall|i: int, j: int| 0 <= i < j < names.len() ==> lex_lt(names[i], names[j])
}

/// Whether some name among `names` reads `n`.
pub open spec fn contains_name(names: Seq<String>, n: Seq<char>) -> bool {
    exists|k: int| 0 <= k < names.len() && #[trigger] names[k]@ == n
}

/// Whether a directory entry makes `n` appear in a listing: a regular
/// file of that name, ending in `.txt` in some letter case.
pub open spec fn is_listed(entries: Seq<DirEntry>, n: Seq<char>) -> bool {
    exists|k: int|
        0 <= k < entries.len() && entries[k].is_file && txt_suffix_ci(entries[k].name@)
            && entries[k].name@ == n
}

/// A strictly sorted listing holds no name twice.
pub proof fn lemma_sorted_names_distinct(names: Seq<Seq<char>>)
    requires
        strictly_sorted(names),
    ensures
        forall|i: int, j: int| 0 <= i < j < names.len() ==> names[i] !== names[j],
{
    assert forall|i: int, j: int| 0 <= i < j < names.len() implies names[i] !== names[j] by {
        lemma_lex_trichotomy(names[i], names[j]);
    }
}

/// Puts `name` into its place in a strictly sorted vector of names;
/// leaves the vector unchanged when the name is already present.
fn insert_name(v: &mut Vec<String>, name: String)
    requires
        strictly_sorted(views_of(old(v)@)),
    ensures
        strictly_sorted(views_of(final(v)@)),
        forall|n: Seq<char>|
            #[trigger] contains_name(final(v)@, n) <==> (contains_name(old(v)@, n) || n
                == name@),
{
    let mut i: usize = 0;
    let mut place_found: bool = false;
    while !place_found && i < v.len()
        invariant
            strictly_sorted(views_of(v@)),
            v@ == old(v)@,
            0 <= i <= v@.len(),
            forall|k: int| 0 <= k < i ==> lex_lt(v@[k]@, name@),
            place_found ==> i < v@.len() && lex_lt(name@, v@[i as int]@),
        decreases v@.len() - i + if place_found { 0int } else { 1int },
    {
        match compare_names(v[i].as_str(), name.as_str()) {
            NameOrder::Before => {
                i = i + 1;
            },
            NameOrder::Same => {
                assert(contains_name(v@, name@));
                return ;
            },
            NameOrder::After => {
                place_found = true;
            },
        }
    }
    let ghost pre = v@;
    v.insert(i, name);
    proof {
        let ii = i as int;
        assert(v@.len() == pre.len() + 1);
        assert(v@[ii] == name);
        assert(forall|k: int| 0 <= k < ii ==> v@[k] == pre[k]);
        assert(forall|k: int| ii < k < v@.len() ==> v@[k] == pre[k - 1]);
        assert forall|p: int, q: int|
            0 <= p < q < pre.len() implies lex_lt(#[trigger] pre[p]@, #[trigger] pre[q]@) by {
            assert(views_of(pre)[p] == pre[p]@);
            assert(views_of(pre)[q] == pre[q]@);
            assert(lex_lt(views_of(pre)[p], views_of(pre)[q]));
        }
        assert forall|p: int, q: int|
            0 <= p < q < views_of(v@).len() implies lex_lt(v@[p]@, v@[q]@) by {
            if p < ii && q == ii {
                assert(lex_lt(pre[p]@, name@));
            } else if p == ii && q > ii {
                assert(place_found && lex_lt(name@, pre[ii]@));
                if q > ii + 1 {
                    lemma_lex_transitive(name@, pre[ii]@, pre[q - 1]@);
                }
                assert(v@[q]@ == pre[q - 1]@);
            } else if p < ii && q > ii {
                assert(lex_lt(pre[p]@, name@));
                assert(place_found && lex_lt(name@, pre[ii]@));
                if q > ii + 1 {
                    lemma_lex_transitive(name@, pre[ii]@, pre[q - 1]@);
                }
                lemma_lex_transitive(pre[p]@, name@, pre[q - 1]@);
            } else if p > ii && q > ii {
                assert(v@[p]@ == pre[p - 1]@);
                assert(v@[q]@ == pre[q - 1]@);
            }
        }
        assert forall|n: Seq<char>|
            #[trigger] contains_name(v@, n) <==> (contains_name(pre, n) || n == name@) by {
            if contains_name(v@, n) {
                let k = choose|k: int| 0 <= k < v@.len() && v@[k]@ == n;
                if k < i as int {
                    assert(pre[k]@ == n);
                    assert(contains_name(pre, n));
                } else if k == i as int {
                } else {
                    assert(pre[k - 1]@ == n);
                    assert(contains_name(pre, n));
                }
            }
            if contains_name(pre, n) {
                let k = choose|k: int| 0 <= k < pre.len() && pre[k]@ == n;
                if k < i as int {
                    assert(v@[k]@ == n);
                } else {
                    assert(v@[k + 1]@ == n);
                }
                assert(contains_name(v@, n));
            }
            if n == name@ {
                assert(v@[i as int]@ == n);
                assert(contains_name(v@, n));
            }
        }
    }
}

/// The compute half of listing the store's directory: of the entries the
/// host enumerated, keep the regular files named `*.txt` (the suffix
/// matched without regard to letter case) and return their names in
/// strictly ascending lexicographic order, without duplicates. Total: an
/// empty enumeration gives an empty listing, never an error.
pub fn select_txt_names(entries: &Vec<DirEntry>) -> (r: Vec<String>)
    ensures
        strictly_sorted(views_of(r@)),
        forall|m: int| 0 <= m < r@.len() ==> txt_suffix_ci(#[trigger] r@[m]@),
        forall|n: Seq<char>| #[trigger] contains_name(r@, n) <==> is_listed(entries@, n),
        entries@.len() == 0 ==> r@.len() == 0,
{
    let mut r: Vec<String> = Vec::new();
    let mut i: usize = 0;
    while i < entries.len()
        invariant
            0 <= i <= entries@.len(),
            strictly_sorted(views_of(r@)),
            forall|m: int| 0 <= m < r@.len() ==> txt_suffix_ci(#[trigger] r@[m]@),
            forall|n: Seq<char>|
                #[trigger] contains_name(r@, n) <==> is_listed(entries@.take(i as int), n),
        decreases entries@.len() - i,
    {
        let e = &entries[i];
        let ghost pre = r@;
        if e.is_file && ends_txt_ci(e.name.as_str()) {
            insert_name(&mut r, e.name.clone());
            proof {
                assert forall|m: int| 0 <= m < r@.len() implies txt_suffix_ci(r@[m]@) by {
                    assert(contains_name(r@, r@[m]@));
                    if contains_name(pre, r@[m]@) {
                        let k = choose|k: int| 0 <= k < pre.len() && #[trigger] pre[k]@ == r@[m]@;
                        assert(txt_suffix_ci(pre[k]@));
                    } else {
                        assert(r@[m]@ == e.name@);
                    }
                }
            }
        }
        proof {
            let t0 = entries@.take(i as int);
            let t1 = entries@.take(i as int + 1);
            assert(t0 =~= t1.drop_last());
            assert(t1[i as int] == entries@[i as int]);
            assert forall|n: Seq<char>|
                #[trigger] contains_name(r@, n) <==> is_listed(t1, n) by {
                if contains_name(r@, n) {
                    if contains_name(pre, n) {
                        let k = choose|k: int| 0 <= k < t0.len() && t0[k].is_file && txt_suffix_ci(
                            t0[k].name@,
                        ) && t0[k].name@ == n;
                        assert(t1[k] == t0[k]);
                        assert(is_listed(t1, n));
                    } else {
                        assert(n == entries@[i as int].name@);
                        assert(is_listed(t1, n));
                    }
                }
                if is_listed(t1, n) {
                    let k = choose|k: int|
                        0 <= k < t1.len() && t1[k].is_file && txt_suffix_ci(t1[k].name@)
                            && t1[k].name@ == n;
                    if k < i as int {
                        assert(t0[k] == t1[k]);
                        assert(is_listed(t0, n));
                        assert(contains_name(pre, n));
                    } else {
                        assert(entries@[i as int].is_file && txt_suffix_ci(
                            entries@[i as int].name@,
                        ));
                    }
                    assert(contains_name(r@, n));
                }
            }
        }
        i = i + 1;
    }
    proof {
        assert(entries@.take(entries@.len() as int) =~= entries@);
        if entries@.len() == 0 && r@.len() > 0 {
            assert(contains_name(r@, r@[0]@));
        }
    }
    r
}

} // verus!
