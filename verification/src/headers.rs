//! Header normalization: repeated column names get " (2)", " (3)", ...
//! suffixes, left to right, so that every column name is unique while
//! positions are preserved.
use vstd::prelude::*;
use vstd::string::*;
use vstd::set_lib::lemma_len_subset;
use crate::digits::{dec_rep, lemma_dec_rep_injective, push_dec};
use crate::text::str_eq;

verus! {

/// `name` with the disambiguation suffix for `k`: `name (k)`.
pub open spec fn suffixed(name: Seq<char>, k: nat) -> Seq<char> {
    name + seq![' ', '('] + dec_rep(k) + seq![')']
}

/// `k` is the smallest suffix number from 2 up whose suffixed form is
/// not yet taken.
pub open spec fn is_least_free(done: Seq<Seq<char>>, name: Seq<char>, k: nat) -> bool {
    &&& k >= 2
    &&& !done.contains(suffixed(name, k))
    &&& forall|j: nat| 2 <= j < k ==> done.contains(suffixed(name, j))
}

/// What one raw column name becomes, given the names already emitted.
pub open spec fn renamed(done: Seq<Seq<char>>, name: Seq<char>) -> Seq<char> {
    if !done.contains(name) {
        name
    } else {
        suffixed(name, choose|k: nat| #[trigger] is_least_free(done, name, k))
    }
}

pub open spec fn normalize_prefix(h: Seq<Seq<char>>, n: int) -> Seq<Seq<char>>
    decreases n,
{
    if n <= 0 {
        Seq::empty()
    } else {
        let prev = normalize_prefix(h, n - 1);
        prev.push(renamed(prev, h[n - 1]))
    }
}

/// The normalized header row.
pub open spec fn normalize_headers(h: Seq<Seq<char>>) -> Seq<Seq<char>> {
    normalize_prefix(h, h.len() as int)
}

pub proof fn lemma_suffixed_injective(name: Seq<char>, k1: nat, k2: nat)
    requires
        suffixed(name, k1) == suffixed(name, k2),
    ensures
        k1 == k2,
{
    let s1 = suffixed(name, k1);
    let s2 = suffixed(name, k2);
    assert(s1.len() == name.len() + 3 + dec_rep(k1).len());
    assert(s2.len() == name.len() + 3 + dec_rep(k2).len());
    assert(dec_rep(k1).len() == dec_rep(k2).len());
    let off = name.len() + 2;
    assert forall|i: int| 0 <= i < dec_rep(k1).len() implies dec_rep(k1)[i] == dec_rep(k2)[i] by {
        assert(s1[off + i] == dec_rep(k1)[i]);
        assert(s2[off + i] == dec_rep(k2)[i]);
    }
    assert(dec_rep(k1) =~= dec_rep(k2));
    lemma_dec_rep_injective(k1, k2);
}

/// The candidate suffixed names with numbers in [2, m).
spec fn candidates_below(name: Seq<char>, m: int) -> Set<Seq<char>> {
    Set::new(|x: Seq<char>| exists|j: nat| 2 <= j < m && x == suffixed(name, j))
}

proof fn lemma_candidates_card(name: Seq<char>, m: int)
    requires
        m >= 2,
    ensures
        candidates_below(name, m).finite(),
        candidates_below(name, m).len() == m - 2,
    decreases m,
{
    broadcast use vstd::set::group_set_axioms;

    if m == 2 {
        assert(candidates_below(name, 2) =~= Set::empty());
    } else {
        lemma_candidates_card(name, m - 1);
        let prev = candidates_below(name, m - 1);
        let cur = candidates_below(name, m);
        assert(!prev.contains(suffixed(name, (m - 1) as nat))) by {
            if prev.contains(suffixed(name, (m - 1) as nat)) {
                let j = choose|j: nat|
                    2 <= j < m - 1 && suffixed(name, (m - 1) as nat) == #[trigger] suffixed(
                        name,
                        j,
                    );
                lemma_suffixed_injective(name, (m - 1) as nat, j);
            }
        }
        assert(cur =~= prev.insert(suffixed(name, (m - 1) as nat)));
    }
}

/// Among the suffix numbers 2 through `done.len() + 2` there is always
/// one whose suffixed form is not in `done`: there are more candidates
/// than entries.
proof fn lemma_free_suffix_exists(done: Seq<Seq<char>>, name: Seq<char>)
    ensures
        exists|k: nat| 2 <= k <= done.len() + 2 && !done.contains(suffixed(name, k)),
{
    broadcast use vstd::set::group_set_axioms;
    broadcast use vstd::seq_lib::seq_to_set_is_finite;

    let m = done.len() + 3;
    if forall|j: nat| 2 <= j < m ==> done.contains(#[trigger] suffixed(name, j)) {
        let cands = candidates_below(name, m as int);
        lemma_candidates_card(name, m as int);
        assert forall|x: Seq<char>| cands.contains(x) implies done.to_set().contains(x) by {
            let j = choose|j: nat| 2 <= j < m && x == suffixed(name, j);
            assert(done.contains(suffixed(name, j)));
        }
        assert(cands.subset_of(done.to_set()));
        done.lemma_cardinality_of_set();
        lemma_len_subset(cands, done.to_set());
        assert(false);
    } else {
        let j = choose|j: nat| !(2 <= j < m ==> done.contains(#[trigger] suffixed(name, j)));
        assert(2 <= j <= done.len() + 2 && !done.contains(suffixed(name, j)));
    }
}

/// There is always a least free suffix number, no larger than
/// `done.len() + 2`.
pub proof fn lemma_exists_least_free(done: Seq<Seq<char>>, name: Seq<char>)
    ensures
        exists|k: nat| is_least_free(done, name, k) && k <= done.len() + 2,
{
    lemma_least_free_from(done, name, 2);
}

proof fn lemma_least_free_from(done: Seq<Seq<char>>, name: Seq<char>, k: nat)
    requires
        2 <= k <= done.len() + 2,
        forall|j: nat| 2 <= j < k ==> done.contains(suffixed(name, j)),
    ensures
        exists|kk: nat| is_least_free(done, name, kk) && kk <= done.len() + 2,
    decreases done.len() + 2 - k,
{
    if !done.contains(suffixed(name, k)) {
        assert(is_least_free(done, name, k));
    } else if k == done.len() + 2 {
        lemma_free_suffix_exists(done, name);
        let kf = choose|kf: nat| 2 <= kf <= done.len() + 2 && !done.contains(suffixed(name, kf));
        assert(done.contains(suffixed(name, kf)));
        assert(false);
    } else {
        lemma_least_free_from(done, name, k + 1);
    }
}

pub proof fn lemma_least_free_unique(done: Seq<Seq<char>>, name: Seq<char>, k1: nat, k2: nat)
    requires
        is_least_free(done, name, k1),
        is_least_free(done, name, k2),
    ensures
        k1 == k2,
{
    if k1 < k2 {
        assert(done.contains(suffixed(name, k1)));
    }
    if k2 < k1 {
        assert(done.contains(suffixed(name, k2)));
    }
}

/// Every emitted name is new: the normalized header has no duplicate
/// column names.
pub proof fn lemma_normalize_no_duplicates(h: Seq<Seq<char>>)
    ensures
        normalize_headers(h).len() == h.len(),
        normalize_headers(h).no_duplicates(),
    decreases h.len(),
{
    lemma_normalize_prefix_no_duplicates(h, h.len() as int);
}

proof fn lemma_normalize_prefix_no_duplicates(h: Seq<Seq<char>>, n: int)
    requires
        n <= h.len(),
    ensures
        normalize_prefix(h, n).len() == (if n <= 0 {
            0
        } else {
            n
        }),
        normalize_prefix(h, n).no_duplicates(),
    decreases n,
{
    if n > 0 {
        lemma_normalize_prefix_no_duplicates(h, n - 1);
        let prev = normalize_prefix(h, n - 1);
        let added = renamed(prev, h[n - 1]);
        if prev.contains(h[n - 1]) {
            lemma_exists_least_free(prev, h[n - 1]);
            let k = choose|k: nat| #[trigger] is_least_free(prev, h[n - 1], k);
            assert(is_least_free(prev, h[n - 1], k));
            assert(!prev.contains(added));
        }
        assert(normalize_prefix(h, n) == prev.push(added));
        assert(normalize_prefix(h, n).drop_last() =~= prev);
    }
}

/// Each position keeps its name, except that a repeat gains a
/// disambiguation suffix.
pub proof fn lemma_normalize_renaming(h: Seq<Seq<char>>)
    ensures
        normalize_headers(h).len() == h.len(),
        forall|i: int| #![trigger h[i]]
            0 <= i < h.len() ==> {
                let out = normalize_headers(h);
                let prior = out.subrange(0, i);
                &&& (!prior.contains(h[i]) ==> out[i] == h[i])
                &&& (prior.contains(h[i]) ==> exists|k: nat|
                    k >= 2 && #[trigger] suffixed(h[i], k) == out[i])
            },
{
    lemma_normalize_no_duplicates(h);
    assert forall|i: int| #![trigger h[i]] 0 <= i < h.len() implies {
        let out = normalize_headers(h);
        let prior = out.subrange(0, i);
        &&& (!prior.contains(h[i]) ==> out[i] == h[i])
        &&& (prior.contains(h[i]) ==> exists|k: nat| k >= 2 && #[trigger] suffixed(h[i], k)
            == out[i])
    } by {
        lemma_normalize_prefix_extends(h, i + 1, h.len() as int);
        let out = normalize_headers(h);
        let prev = normalize_prefix(h, i);
        lemma_normalize_prefix_extends(h, i, h.len() as int);
        assert(out.subrange(0, i) =~= prev);
        assert(out[i] == renamed(prev, h[i]));
        if prev.contains(h[i]) {
            lemma_exists_least_free(prev, h[i]);
            let k = choose|k: nat| #[trigger] is_least_free(prev, h[i], k);
            assert(is_least_free(prev, h[i], k));
            assert(suffixed(h[i], k) == out[i]);
        }
    }
}

/// The first `n` entries of the normalized header are exactly the
/// normalized prefix.
proof fn lemma_normalize_prefix_extends(h: Seq<Seq<char>>, n: int, m: int)
    requires
        0 <= n <= m <= h.len(),
    ensures
        normalize_prefix(h, m).len() == m,
        normalize_prefix(h, m).subrange(0, n) == normalize_prefix(h, n),
        n < m ==> normalize_prefix(h, m)[n] == renamed(
            normalize_prefix(h, n),
            h[n],
        ),
    decreases m - n,
{
    lemma_normalize_prefix_len(h, m);
    if n == m {
        assert(normalize_prefix(h, m).subrange(0, n) =~= normalize_prefix(h, n));
    } else {
        lemma_normalize_prefix_extends(h, n, m - 1);
        lemma_normalize_prefix_len(h, m - 1);
        let pm = normalize_prefix(h, m);
        let pm1 = normalize_prefix(h, m - 1);
        assert(pm == pm1.push(renamed(pm1, h[m - 1])));
        assert(pm.subrange(0, n) =~= pm1.subrange(0, n));
        if n < m - 1 {
        } else {
            assert(pm.subrange(0, n) =~= pm1);
            assert(pm[n] == renamed(pm1, h[m - 1]));
        }
    }
}

proof fn lemma_normalize_prefix_len(h: Seq<Seq<char>>, n: int)
    requires
        n <= h.len(),
    ensures
        normalize_prefix(h, n).len() == (if n <= 0 {
            0
        } else {
            n
        }),
    decreases n,
{
    if n > 0 {
        lemma_normalize_prefix_len(h, n - 1);
    }
}

/// A header row that is already free of duplicates comes back
/// unchanged.
pub proof fn lemma_normalize_unique_identity(h: Seq<Seq<char>>)
    requires
        h.no_duplicates(),
    ensures
        normalize_headers(h) == h,
{
    lemma_prefix_unique_identity(h, h.len() as int);
}

proof fn lemma_prefix_unique_identity(h: Seq<Seq<char>>, n: int)
    requires
        h.no_duplicates(),
        n <= h.len(),
    ensures
        normalize_prefix(h, n) == (if n <= 0 {
            Seq::<Seq<char>>::empty()
        } else {
            h.subrange(0, n)
        }),
    decreases n,
{
    if n > 0 {
        lemma_prefix_unique_identity(h, n - 1);
        let prev = normalize_prefix(h, n - 1);
        if n == 1 {
            assert(prev =~= h.subrange(0, 0));
        }
        assert(prev =~= h.subrange(0, n - 1));
        assert(!prev.contains(h[n - 1])) by {
            if prev.contains(h[n - 1]) {
                let j = choose|j: int| 0 <= j < prev.len() && prev[j] == h[n - 1];
                assert(h[j] == h[n - 1]);
            }
        }
        assert(normalize_prefix(h, n) =~= h.subrange(0, n));
    }
}

/// Normalizing is idempotent: a second pass sees only unique names and
/// changes nothing.
pub proof fn lemma_normalize_idempotent(h: Seq<Seq<char>>)
    ensures
        normalize_headers(normalize_headers(h)) == normalize_headers(h),
{
    lemma_normalize_no_duplicates(h);
    lemma_normalize_unique_identity(normalize_headers(h));
}

/// Whether some entry of `v` reads as `s`.
pub fn contains_string(v: &Vec<String>, s: &str) -> (r: bool)
    ensures
        r == v.deep_view().contains(s@),
{
    let n = v.len();
    let mut i: usize = 0;
    while i < n
        invariant
            n == v@.len(),
            i <= n,
            forall|j: int| 0 <= j < i ==> v.deep_view()[j] != s@,
        decreases n - i,
    {
        let hit = str_eq(v[i].as_str(), s);
        assert(v.deep_view()[i as int] == v@[i as int]@);
        if hit {
            return true;
        }
        i = i + 1;
    }
    false
}

/// `name` with the disambiguation suffix for `k` appended.
fn build_suffixed(name: &str, k: u128) -> (r: String)
    ensures
        r@ == suffixed(name@, k as nat),
{
    let mut out = String::from_str(name);
    out.append(" (");
    push_dec(&mut out, k);
    out.append(")");
    proof {
        reveal_strlit(" (");
        reveal_strlit(")");
    }
    assert(out@ =~= suffixed(name@, k as nat));
    out
}

/// Disambiguates a raw header row: the first occurrence of a name is
/// kept; later occurrences get the smallest free " (k)" suffix, k
/// counted from 2. Positions are preserved.
pub fn fix_headers(headers: &Vec<String>) -> (r: Vec<String>)
    ensures
        r.deep_view() == normalize_headers(headers.deep_view()),
{
    let ghost hv = headers.deep_view();
    let n = headers.len();
    let mut out: Vec<String> = Vec::new();
    let mut i: usize = 0;
    proof {
        assert(hv.len() == n);
    }
    while i < n
        invariant
            n == headers@.len(),
            hv == headers.deep_view(),
            i <= n,
            out.deep_view() == normalize_prefix(hv, i as int),
            out@.len() == i,
        decreases n - i,
    {
        proof {
            lemma_normalize_prefix_len(hv, i as int);
            lemma_normalize_prefix_len(hv, i + 1);
            assert(normalize_prefix(hv, i + 1) == normalize_prefix(hv, i as int).push(
                renamed(normalize_prefix(hv, i as int), hv[i as int]),
            ));
        }
        let name: &String = &headers[i];
        proof {
            assert(name@ == hv[i as int]);
        }
        if contains_string(&out, name.as_str()) {
            let ghost done = out.deep_view();
            let taken: usize = out.len();
            assert(done.len() == taken <= usize::MAX);
            let mut k: u128 = 2;
            let mut cand: String = build_suffixed(name.as_str(), k);
            while contains_string(&out, cand.as_str())
                invariant
                    2 <= k,
                    k <= done.len() + 2,
                    done.len() <= usize::MAX,
                    done == out.deep_view(),
                    cand@ == suffixed(name@, k as nat),
                    forall|j: nat| 2 <= j < k ==> done.contains(suffixed(name@, j)),
                decreases done.len() + 2 - k,
            {
                proof {
                    if k == done.len() + 2 {
                        lemma_free_suffix_exists(done, name@);
                        let kf = choose|kf: nat|
                            2 <= kf <= done.len() + 2 && !done.contains(suffixed(name@, kf));
                        assert(done.contains(suffixed(name@, kf)));
                        assert(false);
                    }
                }
                k = k + 1;
                cand = build_suffixed(name.as_str(), k);
            }
            proof {
                assert(is_least_free(done, name@, k as nat));
                let kk = choose|kk: nat| #[trigger] is_least_free(done, name@, kk);
                lemma_least_free_unique(done, name@, k as nat, kk);
                assert(cand@ == renamed(done, name@));
            }
            out.push(cand);
        } else {
            out.push(name.clone());
        }
        i = i + 1;
        assert(out.deep_view() =~= normalize_prefix(hv, i as int));
    }
    assert(out.deep_view() == normalize_headers(hv));
    out
}

} // verus!
