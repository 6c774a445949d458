//! Orders used to keep the compiler's outputs sorted and free of duplicates:
//! names compare as their UTF-8 bytes, lexicographically (the order of Rust's
//! `str`), and dates compare as binary64 bit patterns.
use vstd::prelude::*;
use vstd::utf8::{decode_utf8, encode_utf8, encode_utf8_decode_utf8};

verus! {

/// Lexicographic "strictly less than" on byte strings.
pub open spec fn lex_lt(a: Seq<u8>, b: Seq<u8>) -> bool
    decreases a.len(),
{
    if a.len() == 0 {
        b.len() > 0
    } else if b.len() == 0 {
        false
    } else if a[0] < b[0] {
        true
    } else if a[0] == b[0] {
        lex_lt(a.drop_first(), b.drop_first())
    } else {
        false
    }
}

/// The bytes by which a name is ordered: its UTF-8 encoding.
pub open spec fn name_key(name: Seq<char>) -> Seq<u8> {
    encode_utf8(name)
}

/// `v` is strictly increasing in the order of names.
pub open spec fn names_sorted(v: Seq<String>) -> bool {
    forall|i: int, j: int|
        0 <= i < j < v.len() ==> lex_lt(name_key(#[trigger] v[i]@), name_key(#[trigger] v[j]@))
}

/// The set of names held by `v`.
pub open spec fn name_set(v: Seq<String>) -> Set<Seq<char>> {
    Set::new(|k: Seq<char>| exists|i: int| 0 <= i < v.len() && #[trigger] v[i]@ == k)
}

/// `v` is strictly increasing.
pub open spec fn dates_sorted(v: Seq<u64>) -> bool {
    forall|i: int, j: int| 0 <= i < j < v.len() ==> #[trigger] v[i] < #[trigger] v[j]
}

/// The set of values held by `v`.
pub open spec fn date_set(v: Seq<u64>) -> Set<u64> {
    Set::new(|d: u64| exists|i: int| 0 <= i < v.len() && #[trigger] v[i] == d)
}

/// No byte string is below itself.
pub proof fn lemma_lex_irreflexive(a: Seq<u8>)
    ensures
        !lex_lt(a, a),
    decreases a.len(),
{
    if a.len() > 0 {
        lemma_lex_irreflexive(a.drop_first());
    }
}

/// The lexicographic order is transitive.
pub proof fn lemma_lex_transitive(a: Seq<u8>, b: Seq<u8>, c: Seq<u8>)
    requires
        lex_lt(a, b),
        lex_lt(b, c),
    ensures
        lex_lt(a, c),
    decreases a.len(),
{
    if a.len() > 0 && b.len() > 0 && c.len() > 0 {
        if a[0] == b[0] && b[0] == c[0] {
            lemma_lex_transitive(a.drop_first(), b.drop_first(), c.drop_first());
        }
    }
}

/// Any two byte strings are equal or ordered one way or the other.
pub proof fn lemma_lex_total(a: Seq<u8>, b: Seq<u8>)
    ensures
        lex_lt(a, b) || a == b || lex_lt(b, a),
    decreases a.len(),
{
    if a.len() == 0 {
        if b.len() == 0 {
            assert(a =~= b);
        }
    } else if b.len() > 0 && a[0] == b[0] {
        lemma_lex_total(a.drop_first(), b.drop_first());
        if a.drop_first() == b.drop_first() {
            assert(a =~= seq![a[0]] + a.drop_first());
            assert(b =~= seq![b[0]] + b.drop_first());
        }
    }
}

/// The order is asymmetric.
pub proof fn lemma_lex_asymmetric(a: Seq<u8>, b: Seq<u8>)
    requires
        lex_lt(a, b),
    ensures
        !lex_lt(b, a),
{
    if lex_lt(b, a) {
        lemma_lex_transitive(a, b, a);
        lemma_lex_irreflexive(a);
    }
}

/// Names with the same key are the same name.
pub proof fn lemma_key_injective(x: Seq<char>, y: Seq<char>)
    requires
        name_key(x) == name_key(y),
    ensures
        x == y,
{
    encode_utf8_decode_utf8(x);
    encode_utf8_decode_utf8(y);
}

/// Three-way comparison result.
#[derive(Debug, Clone, Copy, PartialEq, Eq)]
pub enum Cmp {
    Less,
    Equal,
    Greater,
}

proof fn lemma_lex_step(a: Seq<u8>, b: Seq<u8>, i: int)
    requires
        0 <= i < a.len(),
        i < b.len(),
        a[i] == b[i],
    ensures
        lex_lt(a.skip(i), b.skip(i)) == lex_lt(a.skip(i + 1), b.skip(i + 1)),
{
    assert(a.skip(i).drop_first() =~= a.skip(i + 1));
    assert(b.skip(i).drop_first() =~= b.skip(i + 1));
}

/// Compares two byte strings lexicographically.
pub fn compare_bytes(a: &[u8], b: &[u8]) -> (c: Cmp)
    ensures
        c == Cmp::Less <==> lex_lt(a@, b@),
        c == Cmp::Equal <==> a@ == b@,
        c == Cmp::Greater <==> lex_lt(b@, a@),
{
    let mut i: usize = 0;
    assert(a@.skip(0) =~= a@);
    assert(b@.skip(0) =~= b@);
    while i < a.len() && i < b.len()
        invariant
            i <= a@.len(),
            i <= b@.len(),
            a@.take(i as int) == b@.take(i as int),
            lex_lt(a@, b@) == lex_lt(a@.skip(i as int), b@.skip(i as int)),
            lex_lt(b@, a@) == lex_lt(b@.skip(i as int), a@.skip(i as int)),
        decreases a.len() - i,
    {
        if a[i] < b[i] {
            proof {
                lemma_lex_asymmetric(a@.skip(i as int), b@.skip(i as int));
                assert(a@[i as int] != b@[i as int]);
            }
            return Cmp::Less;
        } else if a[i] > b[i] {
            proof {
                lemma_lex_asymmetric(b@.skip(i as int), a@.skip(i as int));
                assert(a@[i as int] != b@[i as int]);
            }
            return Cmp::Greater;
        }
        proof {
            lemma_lex_step(a@, b@, i as int);
            lemma_lex_step(b@, a@, i as int);
            assert(a@.take(i + 1) =~= a@.take(i as int).push(a@[i as int]));
            assert(b@.take(i + 1) =~= b@.take(i as int).push(b@[i as int]));
        }
        i = i + 1;
    }
    if a.len() == b.len() {
        assert(a@ =~= a@.take(i as int));
        assert(b@ =~= b@.take(i as int));
        proof {
            lemma_lex_irreflexive(a@);
        }
        Cmp::Equal
    } else if i == a.len() {
        assert(a@.skip(i as int).len() == 0);
        assert(a@ != b@);
        Cmp::Less
    } else {
        assert(b@.skip(i as int).len() == 0);
        assert(a@ != b@);
        Cmp::Greater
    }
}

/// Compares two names by their UTF-8 bytes.
pub fn compare_names(a: &str, b: &str) -> (c: Cmp)
    ensures
        c == Cmp::Less <==> lex_lt(name_key(a@), name_key(b@)),
        c == Cmp::Equal <==> a@ == b@,
        c == Cmp::Greater <==> lex_lt(name_key(b@), name_key(a@)),
{
    let c = compare_bytes(a.as_bytes(), b.as_bytes());
    proof {
        if name_key(a@) == name_key(b@) {
            lemma_key_injective(a@, b@);
        }
    }
    c
}

/// Inserts `name` into a strictly sorted vector of names, unless present.
pub fn insert_name(v: &mut Vec<String>, name: &str)
    requires
        names_sorted(old(v)@),
    ensures
        names_sorted(final(v)@),
        name_set(final(v)@) == name_set(old(v)@).insert(name@),
{
    let mut p: usize = 0;
    while p < v.len()
        invariant
            p <= v@.len(),
            v@ == old(v)@,
            names_sorted(v@),
            forall|k: int| 0 <= k < p ==> lex_lt(name_key(#[trigger] v@[k]@), name_key(name@)),
        decreases v.len() - p,
    {
        let c = compare_names(v[p].as_str(), name);
        match c {
            Cmp::Less => {},
            Cmp::Equal => {
                assert(name_set(v@) =~= name_set(old(v)@).insert(name@)) by {
                    assert(v@[p as int]@ == name@);
                }
                return ;
            },
            Cmp::Greater => {
                let ghost w = v@;
                v.insert(p, name.to_owned());
                proof {
                    assert forall|i: int, j: int| 0 <= i < j < v@.len() implies lex_lt(
                        name_key(#[trigger] v@[i]@),
                        name_key(#[trigger] v@[j]@),
                    ) by {
                        if j == p {
                        } else if i == p {
                            if j > p + 1 {
                                lemma_lex_transitive(
                                    name_key(name@),
                                    name_key(w[p as int]@),
                                    name_key(w[j - 1]@),
                                );
                            }
                        } else if i < p && j > p {
                            if j > p + 1 {
                                lemma_lex_transitive(
                                    name_key(name@),
                                    name_key(w[p as int]@),
                                    name_key(w[j - 1]@),
                                );
                            }
                            lemma_lex_transitive(
                                name_key(w[i]@),
                                name_key(name@),
                                name_key(w[j - 1]@),
                            );
                        } else if i > p {
                            assert(v@[i] == w[i - 1]);
                        }
                    }
                    assert(name_set(v@) =~= name_set(w).insert(name@)) by {
                        assert(v@[p as int]@ == name@);
                        assert forall|k: Seq<char>| name_set(w).contains(k) implies name_set(
                            v@,
                        ).contains(k) by {
                            let i = choose|i: int| 0 <= i < w.len() && #[trigger] w[i]@ == k;
                            if i < p {
                                assert(v@[i] == w[i]);
                            } else {
                                assert(v@[i + 1] == w[i]);
                            }
                        }
                        assert forall|k: Seq<char>| name_set(v@).contains(k) implies name_set(
                            w,
                        ).insert(name@).contains(k) by {
                            let i = choose|i: int| 0 <= i < v@.len() && #[trigger] v@[i]@ == k;
                            if i < p {
                                assert(w[i] == v@[i]);
                            } else if i > p {
                                assert(w[i - 1] == v@[i]);
                            }
                        }
                    }
                }
                return ;
            },
        }
        p = p + 1;
    }
    let ghost w = v@;
    v.push(name.to_owned());
    proof {
        assert(name_set(v@) =~= name_set(w).insert(name@)) by {
            assert(v@[w.len() as int]@ == name@);
            assert forall|k: Seq<char>| name_set(w).contains(k) implies name_set(v@).contains(
                k,
            ) by {
                let i = choose|i: int| 0 <= i < w.len() && #[trigger] w[i]@ == k;
                assert(v@[i] == w[i]);
            }
        }
    }
}

/// Inserts `d` into a strictly increasing vector, unless present.
pub fn insert_date(v: &mut Vec<u64>, d: u64)
    requires
        dates_sorted(old(v)@),
    ensures
        dates_sorted(final(v)@),
        date_set(final(v)@) == date_set(old(v)@).insert(d),
{
    let mut p: usize = 0;
    while p < v.len()
        invariant
            p <= v@.len(),
            v@ == old(v)@,
            dates_sorted(v@),
            forall|k: int| 0 <= k < p ==> #[trigger] v@[k] < d,
        decreases v.len() - p,
    {
        if v[p] == d {
            assert(date_set(v@) =~= date_set(old(v)@).insert(d)) by {
                assert(v@[p as int] == d);
            }
            return ;
        } else if v[p] > d {
            let ghost w = v@;
            v.insert(p, d);
            proof {
                assert forall|i: int, j: int| 0 <= i < j < v@.len() implies #[trigger] v@[i]
                    < #[trigger] v@[j] by {
                    if i < p && j > p {
                        assert(v@[j] == w[j - 1]);
                    } else if i == p && j > p {
                        assert(v@[j] == w[j - 1]);
                    } else if i > p {
                        assert(v@[i] == w[i - 1]);
                        assert(v@[j] == w[j - 1]);
                    }
                }
                assert(date_set(v@) =~= date_set(w).insert(d)) by {
                    assert(v@[p as int] == d);
                    assert forall|k: u64| date_set(w).contains(k) implies date_set(v@).contains(
                        k,
                    ) by {
                        let i = choose|i: int| 0 <= i < w.len() && #[trigger] w[i] == k;
                        if i < p {
                            assert(v@[i] == w[i]);
                        } else {
                            assert(v@[i + 1] == w[i]);
                        }
                    }
                    assert forall|k: u64| date_set(v@).contains(k) implies date_set(w).insert(
                        d,
                    ).contains(k) by {
                        let i = choose|i: int| 0 <= i < v@.len() && #[trigger] v@[i] == k;
                        if i < p {
                            assert(w[i] == v@[i]);
                        } else if i > p {
                            assert(w[i - 1] == v@[i]);
                        }
                    }
                }
            }
            return ;
        }
        p = p + 1;
    }
    let ghost w = v@;
    v.push(d);
    proof {
        assert(date_set(v@) =~= date_set(w).insert(d)) by {
            assert(v@[w.len() as int] == d);
            assert forall|k: u64| date_set(w).contains(k) implies date_set(v@).contains(k) by {
                let i = choose|i: int| 0 <= i < w.len() && #[trigger] w[i] == k;
                assert(v@[i] == w[i]);
            }
        }
    }
}

} // verus!
