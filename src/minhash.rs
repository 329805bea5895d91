use rand::Rng;
use vstd::arithmetic::div_mod::{lemma_add_mod_noop, lemma_mod_bound, lemma_mul_mod_noop_right};
use vstd::prelude::*;

use crate::text::{chars_of, strings_view};
use crate::SearchError;

verus! {

/// The modulus that every hash function of a family shares.
pub const LARGE_PRIME: u64 = 95633;

/// The least coefficient drawn for a hash function.
pub const COEFFICIENT_MIN: u64 = 10;

/// One past the greatest coefficient drawn for a hash function.
pub const COEFFICIENT_END: u64 = 10000;

/// The affine string hash `s -> (a * (sum of the character codes of s) + b) mod modulus`.
#[derive(Clone, Copy, Debug, PartialEq, Eq, Structural)]
pub struct HashFunction {
    pub a: u64,
    pub b: u64,
    pub modulus: u64,
}

/// The sum of the character codes of `s`.
pub open spec fn char_sum(s: Seq<char>) -> int
    decreases s.len(),
{
    if s.len() == 0 {
        0
    } else {
        char_sum(s.drop_last()) + (s.last() as u32) as int
    }
}

impl HashFunction {
    /// Coefficients and modulus small enough that evaluation cannot overflow.
    pub open spec fn wf(&self) -> bool {
        &&& 0 < self.modulus < 0x1_0000_0000
        &&& self.a < 0x1_0000_0000
        &&& self.b < 0x1_0000_0000
    }

    /// The value of the hash on the characters `s`.
    pub open spec fn spec_hash(&self, s: Seq<char>) -> int {
        (self.a * char_sum(s) + self.b) % (self.modulus as int)
    }

    /// Evaluates the hash on `s`.
    pub fn hash(&self, s: &str) -> (r: u64)
        requires
            self.wf(),
        ensures
            r == self.spec_hash(s@),
            r < self.modulus,
    {
        let cs = chars_of(s);
        let p = self.modulus;
        let mut sum: u64 = 0;
        assert(char_sum(s@.take(0)) == 0);
        for i in 0..cs.len()
            invariant
                cs@ == s@,
                p == self.modulus,
                0 < p < 0x1_0000_0000,
                sum < p,
                sum == char_sum(s@.take(i as int)) % (p as int),
        {
            let c = cs[i] as u32 as u64;
            proof {
                let pre = s@.take(i as int);
                assert(s@.take(i + 1).drop_last() =~= pre);
                assert(s@.take(i + 1).last() == cs@[i as int]);
                assert(char_sum(s@.take(i + 1)) == char_sum(pre) + c);
                lemma_add_mod_noop(char_sum(pre), c as int, p as int);
                lemma_add_mod_noop(sum as int, c as int, p as int);
                lemma_mod_bound(c as int, p as int);
                lemma_mod_bound(char_sum(pre), p as int);
                lemma_mod_bound(sum + c, p as int);
                assert((sum as int % p as int) == sum) by {
                    vstd::arithmetic::div_mod::lemma_small_mod(sum as nat, p as nat);
                }
            }
            sum = (sum + c) % p;
        }
        proof {
            assert(s@.take(cs.len() as int) =~= s@);
            let t = char_sum(s@);
            lemma_mul_mod_noop_right(self.a as int, t, p as int);
            lemma_add_mod_noop(self.a * (t % p as int), self.b as int, p as int);
            lemma_add_mod_noop(self.a * t, self.b as int, p as int);
            lemma_mod_bound(self.a * (t % p as int), p as int);
            lemma_mod_bound(self.a * t, p as int);
            assert(self.a * sum <= 0xffff_ffff * 0xffff_ffff) by (nonlinear_arith)
                requires
                    self.a < 0x1_0000_0000,
                    sum < 0x1_0000_0000,
            ;
        }
        (self.a * sum + self.b) % p
    }
}

/// Relies on `rand::Rng::gen_range` on a thread-local generator: a value of `lo..hi`.
#[verifier::external_body]
fn random_in(lo: u64, hi: u64) -> (r: u64)
    requires
        lo < hi,
    ensures
        lo <= r < hi,
{
    rand::thread_rng().gen_range(lo..hi)
}

/// A hash function with fresh random coefficients drawn from `10..10000`.
pub fn create_hash_func() -> (r: HashFunction)
    ensures
        r.wf(),
        COEFFICIENT_MIN <= r.a < COEFFICIENT_END,
        COEFFICIENT_MIN <= r.b < COEFFICIENT_END,
        r.modulus == LARGE_PRIME,
{
    let a = random_in(COEFFICIENT_MIN, COEFFICIENT_END);
    let b = random_in(COEFFICIENT_MIN, COEFFICIENT_END);
    HashFunction { a, b, modulus: LARGE_PRIME }
}

/// A family of `k` independently drawn hash functions.
pub fn generate_hash_funcs(k: usize) -> (r: Vec<HashFunction>)
    ensures
        r.len() == k,
        forall|i: int|
            0 <= i < k ==> {
                &&& (#[trigger] r@[i]).wf()
                &&& COEFFICIENT_MIN <= r@[i].a < COEFFICIENT_END
                &&& COEFFICIENT_MIN <= r@[i].b < COEFFICIENT_END
                &&& r@[i].modulus == LARGE_PRIME
            },
{
    let mut out: Vec<HashFunction> = Vec::new();
    for i in 0..k
        invariant
            out.len() == i,
            forall|j: int|
                0 <= j < i ==> {
                    &&& (#[trigger] out@[j]).wf()
                    &&& COEFFICIENT_MIN <= out@[j].a < COEFFICIENT_END
                    &&& COEFFICIENT_MIN <= out@[j].b < COEFFICIENT_END
                    &&& out@[j].modulus == LARGE_PRIME
                },
    {
        out.push(create_hash_func());
    }
    out
}

/// Every function of the family can be evaluated.
pub open spec fn family_wf(funcs: Seq<HashFunction>) -> bool {
    forall|i: int| 0 <= i < funcs.len() ==> (#[trigger] funcs[i]).wf()
}

/// `v` is the least value of `h` over the set `shingles`, or `u64::MAX` when it is empty.
pub open spec fn is_min_hash(v: u64, h: HashFunction, shingles: Set<Seq<char>>) -> bool {
    &&& shingles.is_empty() ==> v == u64::MAX
    &&& !shingles.is_empty() ==> exists|t: Seq<char>| shingles.contains(t) && v == h.spec_hash(t)
    &&& forall|t: Seq<char>| shingles.contains(t) ==> v <= h.spec_hash(t)
}

/// `sig` is the MinHash signature of `shingles` under `funcs`: position `i` holds the
/// least value of the `i`-th function.
pub open spec fn is_signature(sig: Seq<u64>, shingles: Set<Seq<char>>, funcs: Seq<HashFunction>) -> bool {
    &&& sig.len() == funcs.len()
    &&& forall|i: int| 0 <= i < sig.len() ==> is_min_hash(#[trigger] sig[i], funcs[i], shingles)
}

/// The MinHash signature of a shingle set: for each function, its least value over the set.
pub fn generate_minhash_signature(data: &Vec<String>, hash_funcs: &Vec<HashFunction>) -> (r: Vec<u64>)
    requires
        family_wf(hash_funcs@),
    ensures
        is_signature(r@, strings_view(data@).to_set(), hash_funcs@),
{
    let ghost set = strings_view(data@).to_set();
    let mut sig: Vec<u64> = Vec::new();
    for f in 0..hash_funcs.len()
        invariant
            family_wf(hash_funcs@),
            set == strings_view(data@).to_set(),
            sig.len() == f,
            forall|i: int| 0 <= i < f ==> is_min_hash(#[trigger] sig@[i], hash_funcs@[i], set),
    {
        let h = hash_funcs[f];
        assert(h.wf());
        let mut min_value: u64 = u64::MAX;
        for j in 0..data.len()
            invariant
                h.wf(),
                set == strings_view(data@).to_set(),
                j == 0 ==> min_value == u64::MAX,
                j > 0 ==> exists|e: int| 0 <= e < j && min_value == h.spec_hash(data@[e]@),
                forall|e: int| 0 <= e < j ==> min_value <= h.spec_hash(#[trigger] data@[e]@),
        {
            let v = h.hash(data[j].as_str());
            if v < min_value {
                min_value = v;
            }
        }
        proof {
            let sv = strings_view(data@);
            if set.is_empty() {
                if data.len() > 0 {
                    assert(set.contains(sv[0]));
                }
            } else {
                let e = choose|e: int| 0 <= e < data.len() && min_value == h.spec_hash(data@[e]@);
                assert(set.contains(sv[e]));
            }
            assert forall|t: Seq<char>| set.contains(t) implies min_value <= h.spec_hash(t) by {
                let e = choose|e: int| 0 <= e < sv.len() && sv[e] == t;
                assert(data@[e]@ == t);
            }
        }
        sig.push(min_value);
    }
    sig
}


/// An estimated similarity `matches / total`: the number of positions at which two
/// signatures agree, out of their length.
#[derive(Clone, Copy, Debug, PartialEq, Eq, Structural)]
pub struct Similarity {
    pub matches: usize,
    pub total: usize,
}

/// The number of positions below `n` at which `a` and `b` agree.
pub open spec fn match_count(a: Seq<u64>, b: Seq<u64>, n: int) -> nat
    decreases n,
{
    if n <= 0 {
        0
    } else {
        match_count(a, b, n - 1) + if a[n - 1] == b[n - 1] { 1nat } else { 0nat }
    }
}

/// The estimate for two signatures, or `InvalidArgument` when their lengths differ.
pub open spec fn similarity_spec(a: Seq<u64>, b: Seq<u64>) -> Result<Similarity, SearchError> {
    if a.len() != b.len() {
        Err(SearchError::InvalidArgument)
    } else {
        Ok(Similarity { matches: match_count(a, b, a.len() as int) as usize, total: a.len() as usize })
    }
}

/// At most `n` of the first `n` positions agree.
pub proof fn lemma_match_count_bound(a: Seq<u64>, b: Seq<u64>, n: int)
    requires
        n >= 0,
    ensures
        match_count(a, b, n) <= n,
    decreases n,
{
    if n > 0 {
        lemma_match_count_bound(a, b, n - 1);
    }
}

/// Compares two signatures position by position.
pub fn minhash_similarity(a: &Vec<u64>, b: &Vec<u64>) -> (r: Result<Similarity, SearchError>)
    ensures
        r == similarity_spec(a@, b@),
{
    if a.len() != b.len() {
        return Err(SearchError::InvalidArgument);
    }
    let mut matches: usize = 0;
    for i in 0..a.len()
        invariant
            a.len() == b.len(),
            matches == match_count(a@, b@, i as int),
    {
        proof {
            lemma_match_count_bound(a@, b@, i as int);
        }
        if a[i] == b[i] {
            matches += 1;
        }
    }
    Ok(Similarity { matches, total: a.len() })
}

proof fn lemma_match_count_symmetric(a: Seq<u64>, b: Seq<u64>, n: int)
    ensures
        match_count(a, b, n) == match_count(b, a, n),
    decreases n,
{
    if n > 0 {
        lemma_match_count_symmetric(a, b, n - 1);
    }
}

proof fn lemma_match_count_equal(a: Seq<u64>, b: Seq<u64>, n: int)
    requires
        0 <= n <= a.len(),
        a.len() == b.len(),
        forall|i: int| 0 <= i < n ==> a[i] == b[i],
    ensures
        match_count(a, b, n) == n,
    decreases n,
{
    if n > 0 {
        lemma_match_count_equal(a, b, n - 1);
    }
}

/// The estimate is symmetric: comparing `a` with `b` gives what comparing `b` with `a` gives.
pub proof fn lemma_similarity_symmetric(a: Seq<u64>, b: Seq<u64>)
    ensures
        similarity_spec(a, b) == similarity_spec(b, a),
{
    lemma_match_count_symmetric(a, b, a.len() as int);
}

/// The least value of a function over a set is unique.
proof fn lemma_min_hash_unique(x: u64, y: u64, h: HashFunction, shingles: Set<Seq<char>>)
    requires
        is_min_hash(x, h, shingles),
        is_min_hash(y, h, shingles),
    ensures
        x == y,
{
    if !shingles.is_empty() {
        let tx = choose|t: Seq<char>| shingles.contains(t) && x == h.spec_hash(t);
        let ty = choose|t: Seq<char>| shingles.contains(t) && y == h.spec_hash(t);
        assert(x <= h.spec_hash(ty));
        assert(y <= h.spec_hash(tx));
    }
}

/// Two signatures of the same shingle set under the same family agree at every position.
pub proof fn lemma_signature_unique(
    a: Seq<u64>,
    b: Seq<u64>,
    shingles: Set<Seq<char>>,
    funcs: Seq<HashFunction>,
)
    requires
        is_signature(a, shingles, funcs),
        is_signature(b, shingles, funcs),
    ensures
        a == b,
{
    assert forall|i: int| 0 <= i < a.len() implies a[i] == b[i] by {
        lemma_min_hash_unique(a[i], b[i], funcs[i], shingles);
    }
    assert(a =~= b);
}

/// A document compared with itself: two signatures computed from one shingle set under one
/// non-empty family agree at every position, so the estimate is `len / len`, that is 1.
pub proof fn lemma_self_similarity(
    a: Seq<u64>,
    b: Seq<u64>,
    shingles: Set<Seq<char>>,
    funcs: Seq<HashFunction>,
)
    requires
        funcs.len() > 0,
        is_signature(a, shingles, funcs),
        is_signature(b, shingles, funcs),
    ensures
        similarity_spec(a, b) == Ok::<Similarity, SearchError>(
            Similarity { matches: funcs.len() as usize, total: funcs.len() as usize },
        ),
{
    lemma_signature_unique(a, b, shingles, funcs);
    lemma_match_count_equal(a, b, a.len() as int);
}

/// Two documents whose shingle lists hold the same set of shingles get the estimate 1
/// under any non-empty family, since each position's minimum is taken over the same set.
pub proof fn lemma_equal_shingle_sets(
    x: Seq<Seq<char>>,
    y: Seq<Seq<char>>,
    a: Seq<u64>,
    b: Seq<u64>,
    funcs: Seq<HashFunction>,
)
    requires
        funcs.len() > 0,
        x.to_set() == y.to_set(),
        is_signature(a, x.to_set(), funcs),
        is_signature(b, y.to_set(), funcs),
    ensures
        similarity_spec(a, b) == Ok::<Similarity, SearchError>(
            Similarity { matches: funcs.len() as usize, total: funcs.len() as usize },
        ),
{
    lemma_self_similarity(a, b, x.to_set(), funcs);
}


/// Whether `v` holds a string with the characters of `s`.
fn holds_string(v: &Vec<String>, s: &String) -> (r: bool)
    ensures
        r == strings_view(v@).contains(s@),
{
    for i in 0..v.len()
        invariant
            forall|j: int| 0 <= j < i ==> v@[j]@ != s@,
    {
        if v[i] == *s {
            assert(strings_view(v@)[i as int] == s@);
            return true;
        }
    }
    proof {
        assert forall|t: Seq<char>| strings_view(v@).contains(t) implies t != s@ by {
            let j = choose|j: int| 0 <= j < v.len() && strings_view(v@)[j] == t;
            assert(v@[j]@ == t);
        }
    }
    false
}

/// The exact Jaccard similarity of two shingle sets: the size of their intersection over
/// the size of their union.
pub fn jaccard(a: &Vec<String>, b: &Vec<String>) -> (r: Similarity)
    requires
        strings_view(a@).no_duplicates(),
        strings_view(b@).no_duplicates(),
        a.len() + b.len() <= usize::MAX,
    ensures
        r.matches == strings_view(a@).to_set().intersect(strings_view(b@).to_set()).len(),
        r.total == strings_view(a@).to_set().union(strings_view(b@).to_set()).len(),
{
    broadcast use vstd::seq_lib::seq_to_set_is_finite;

    let ghost sa = strings_view(a@);
    let ghost sb = strings_view(b@).to_set();
    proof {
        strings_view(b@).unique_seq_to_set();
    }
    let mut inter: usize = 0;
    let mut only_a: usize = 0;
    proof {
        assert(sa.take(0).to_set() =~= Set::<Seq<char>>::empty());
        assert(Set::<Seq<char>>::empty().intersect(sb) =~= Set::<Seq<char>>::empty());
        assert(sb.union(Set::<Seq<char>>::empty()) =~= sb);
    }
    for i in 0..a.len()
        invariant
            sa == strings_view(a@),
            sa.no_duplicates(),
            sb == strings_view(b@).to_set(),
            sb.len() == b.len(),
            a.len() + b.len() <= usize::MAX,
            inter + only_a == i,
            inter == sa.take(i as int).to_set().intersect(sb).len(),
            b.len() + only_a == sb.union(sa.take(i as int).to_set()).len(),
    {
        let ghost p = sa.take(i as int).to_set();
        let ghost x = sa[i as int];
        proof {
            let q = sa.take(i + 1);
            assert forall|y: Seq<char>| q.to_set().contains(y) <==> p.insert(x).contains(y) by {
                if q.to_set().contains(y) {
                    let j = choose|j: int| 0 <= j < q.len() && q[j] == y;
                    if j < i {
                        assert(sa.take(i as int)[j] == y);
                    }
                }
                if p.contains(y) {
                    let j = choose|j: int| 0 <= j < i && sa.take(i as int)[j] == y;
                    assert(q[j] == y);
                }
                if y == x {
                    assert(q[i as int] == y);
                }
            }
            assert(q.to_set() =~= p.insert(x));
            assert(!p.contains(x)) by {
                if p.contains(x) {
                    let j = choose|j: int| 0 <= j < i && sa.take(i as int)[j] == x;
                    assert(sa[j] == sa[i as int]);
                }
            }
        }
        assert(a@[i as int]@ == x);
        if holds_string(b, &a[i]) {
            proof {
                assert(p.insert(x).intersect(sb) =~= p.intersect(sb).insert(x));
                assert(sb.union(p.insert(x)) =~= sb.union(p));
            }
            inter += 1;
        } else {
            proof {
                assert(p.insert(x).intersect(sb) =~= p.intersect(sb));
                assert(sb.union(p.insert(x)) =~= sb.union(p).insert(x));
            }
            only_a += 1;
        }
    }
    proof {
        assert(sa.take(a.len() as int) =~= sa);
        assert(sb.union(sa.to_set()) =~= sa.to_set().union(sb));
    }
    Similarity { matches: inter, total: b.len() + only_a }
}

} // verus!
