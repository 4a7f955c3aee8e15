//! Choosing the snapshot to restore: the lexicographically greatest dlist.
use vstd::prelude::*;

verus! {

/// `a` sorts before `b`, comparing characters from position `i` on (the
/// order of Rust's `str`).
pub open spec fn lex_lt_from(a: Seq<char>, b: Seq<char>, i: int) -> bool
    decreases a.len() - i,
{
    if i < 0 || i >= a.len() {
        i >= 0 && i < b.len()
    } else if i >= b.len() {
        false
    } else if a[i] != b[i] {
        (a[i] as int) < (b[i] as int)
    } else {
        lex_lt_from(a, b, i + 1)
    }
}

pub open spec fn lex_lt(a: Seq<char>, b: Seq<char>) -> bool {
    lex_lt_from(a, b, 0)
}

pub open spec fn dlist_suffix() -> Seq<char> {
    seq!['d', 'l', 'i', 's', 't', '.', 'z', 'i', 'p']
}

pub open spec fn ends_with(s: Seq<char>, suffix: Seq<char>) -> bool {
    s.len() >= suffix.len() && s.subrange(s.len() - suffix.len(), s.len() as int) == suffix
}

/// Whether `a` sorts before `b`.
pub fn name_lt(a: &str, b: &str) -> (r: bool)
    ensures
        r == lex_lt(a@, b@),
{
    let na = a.unicode_len();
    let nb = b.unicode_len();
    let mut i: usize = 0;
    while i < na && i < nb
        invariant
            na == a@.len(),
            nb == b@.len(),
            i <= na,
            i <= nb,
            lex_lt(a@, b@) == lex_lt_from(a@, b@, i as int),
        decreases na - i,
    {
        let ca = a.get_char(i);
        let cb = b.get_char(i);
        if ca != cb {
            return ca < cb;
        }
        i = i + 1;
    }
    i < nb
}

/// Whether `s` ends with `dlist.zip`.
pub fn is_dlist_name(s: &str) -> (r: bool)
    ensures
        r == ends_with(s@, dlist_suffix()),
{
    proof {
        reveal_strlit("dlist.zip");
        assert("dlist.zip"@ =~= dlist_suffix());
    }
    let suffix = "dlist.zip";
    let n = s.unicode_len();
    let m = suffix.unicode_len();
    if n < m {
        return false;
    }
    let mut k: usize = 0;
    while k < m
        invariant
            n == s@.len(),
            m == suffix@.len(),
            suffix@ == dlist_suffix(),
            m <= n,
            k <= m,
            forall|t: int| 0 <= t < k ==> s@[n - m + t] == suffix@[t],
        decreases m - k,
    {
        if s.get_char(n - m + k) != suffix.get_char(k) {
            assert(s@.subrange(n - m, n as int)[k as int] != dlist_suffix()[k as int]);
            return false;
        }
        k = k + 1;
    }
    assert(s@.subrange(n - m, n as int) =~= dlist_suffix());
    true
}

/// The position of the newest dlist among `names`: the greatest name, in
/// `str` order, of those that end with `dlist.zip`; `None` when none does.
pub fn newest_dlist(names: &Vec<String>) -> (r: Option<usize>)
    ensures
        r is None <==> forall|j: int| 0 <= j < names@.len() ==> !ends_with(
            #[trigger] names@[j]@,
            dlist_suffix(),
        ),
        r matches Some(i) ==> i < names@.len() && ends_with(names@[i as int]@, dlist_suffix())
            && forall|j: int|
            0 <= j < names@.len() && ends_with(#[trigger] names@[j]@, dlist_suffix()) ==> !lex_lt(
                names@[i as int]@,
                names@[j]@,
            ),
{
    let mut best: Option<usize> = None;
    let mut j: usize = 0;
    while j < names.len()
        invariant
            j <= names@.len(),
            best is None <==> forall|t: int| 0 <= t < j ==> !ends_with(
                #[trigger] names@[t]@,
                dlist_suffix(),
            ),
            best matches Some(i) ==> i < j && ends_with(names@[i as int]@, dlist_suffix())
                && forall|t: int|
                0 <= t < j && ends_with(#[trigger] names@[t]@, dlist_suffix()) ==> !lex_lt(
                    names@[i as int]@,
                    names@[t]@,
                ),
        decreases names@.len() - j,
    {
        if is_dlist_name(names[j].as_str()) {
            match best {
                None => {
                    best = Some(j);
                    proof {
                        lemma_lex_irreflexive(names@[j as int]@, 0);
                    }
                },
                Some(i) => {
                    if name_lt(names[i].as_str(), names[j].as_str()) {
                        proof {
                            assert forall|t: int|
                                0 <= t < j + 1 && ends_with(
                                    #[trigger] names@[t]@,
                                    dlist_suffix(),
                                ) implies !lex_lt(names@[j as int]@, names@[t]@) by {
                                if t < j {
                                    lemma_lex_total(names@[i as int]@, names@[t]@, 0);
                                    lemma_lex_transitive(names@[t]@, names@[i as int]@, names@[j as int]@, 0);
                                    lemma_lex_asymmetric(names@[t]@, names@[j as int]@, 0);
                                } else {
                                    lemma_lex_irreflexive(names@[j as int]@, 0);
                                }
                            }
                        }
                        best = Some(j);
                    }
                },
            }
        }
        j = j + 1;
    }
    best
}

proof fn lemma_lex_irreflexive(a: Seq<char>, i: int)
    requires
        i >= 0,
    ensures
        !lex_lt_from(a, a, i),
    decreases a.len() - i,
{
    if i < a.len() {
        lemma_lex_irreflexive(a, i + 1);
    }
}

proof fn lemma_lex_asymmetric(a: Seq<char>, b: Seq<char>, i: int)
    requires
        i >= 0,
        lex_lt_from(a, b, i),
    ensures
        !lex_lt_from(b, a, i),
    decreases a.len() - i,
{
    if i < a.len() && i < b.len() && a[i] == b[i] {
        lemma_lex_asymmetric(a, b, i + 1);
    }
}

/// Not below means equal or above.
proof fn lemma_lex_total(a: Seq<char>, b: Seq<char>, i: int)
    requires
        0 <= i <= a.len(),
        i <= b.len(),
        !lex_lt_from(a, b, i),
    ensures
        lex_lt_from(b, a, i) || a.subrange(i, a.len() as int) == b.subrange(i, b.len() as int),
    decreases a.len() - i,
{
    if i < a.len() && i < b.len() {
        if a[i] == b[i] {
            lemma_lex_total(a, b, i + 1);
            if !lex_lt_from(b, a, i + 1) {
                assert(a.subrange(i, a.len() as int) =~= seq![a[i]] + a.subrange(i + 1, a.len() as int));
                assert(b.subrange(i, b.len() as int) =~= seq![b[i]] + b.subrange(i + 1, b.len() as int));
            }
        } else {
            assert((a[i] as int) != (b[i] as int));
        }
    } else if i >= a.len() && i >= b.len() {
        assert(a.subrange(i, a.len() as int) =~= b.subrange(i, b.len() as int));
    }
}

proof fn lemma_lex_transitive(a: Seq<char>, b: Seq<char>, c: Seq<char>, i: int)
    requires
        0 <= i <= a.len(),
        i <= b.len(),
        i <= c.len(),
        lex_lt_from(a, b, i) || a.subrange(i, a.len() as int) == b.subrange(i, b.len() as int),
        lex_lt_from(b, c, i),
    ensures
        lex_lt_from(a, c, i),
    decreases c.len() - i,
{
    if a.subrange(i, a.len() as int) == b.subrange(i, b.len() as int) {
        lemma_lex_same_tail(a, b, c, i);
    } else if i < a.len() && i < b.len() && i < c.len() && a[i] == b[i] && b[i] == c[i] {
        lemma_lex_transitive(a, b, c, i + 1);
    }
}

/// Sequences that agree from position `i` on compare alike with any other.
proof fn lemma_lex_same_tail(a: Seq<char>, b: Seq<char>, c: Seq<char>, i: int)
    requires
        0 <= i <= a.len(),
        i <= b.len(),
        a.subrange(i, a.len() as int) == b.subrange(i, b.len() as int),
    ensures
        lex_lt_from(a, c, i) == lex_lt_from(b, c, i),
    decreases a.len() - i,
{
    let ta = a.subrange(i, a.len() as int);
    let tb = b.subrange(i, b.len() as int);
    assert(ta.len() == tb.len());
    if i < a.len() {
        assert(ta[0] == a[i]);
        assert(tb[0] == b[i]);
        assert(a.subrange(i + 1, a.len() as int) =~= ta.drop_first());
        assert(b.subrange(i + 1, b.len() as int) =~= tb.drop_first());
        lemma_lex_same_tail(a, b, c, i + 1);
    }
}

} // verus!
