//! Lexicographic order on strings and lookup in tables sorted by a string key.

use vstd::prelude::*;
use vstd::string::*;

verus! {

/// `a` comes strictly before `b` in lexicographic order of code points, the
/// order in which Rust compares strings.
pub open spec fn lex_lt(a: Seq<char>, b: Seq<char>) -> bool
    decreases a.len(),
{
    if b.len() == 0 {
        false
    } else if a.len() == 0 {
        true
    } else if a[0] != b[0] {
        a[0] < b[0]
    } else {
        lex_lt(a.drop_first(), b.drop_first())
    }
}

/// No string comes before itself.
pub proof fn lemma_lex_lt_irreflexive(a: Seq<char>)
    ensures
        !lex_lt(a, a),
    decreases a.len(),
{
    if a.len() > 0 {
        lemma_lex_lt_irreflexive(a.drop_first());
    }
}

/// The order is transitive.
pub proof fn lemma_lex_lt_transitive(a: Seq<char>, b: Seq<char>, c: Seq<char>)
    requires
        lex_lt(a, b),
        lex_lt(b, c),
    ensures
        lex_lt(a, c),
    decreases a.len(),
{
    if a.len() > 0 && b.len() > 0 && c.len() > 0 && a[0] == b[0] && b[0] == c[0] {
        lemma_lex_lt_transitive(a.drop_first(), b.drop_first(), c.drop_first());
    }
}

/// Two different strings are ordered one way or the other.
pub proof fn lemma_lex_lt_total(a: Seq<char>, b: Seq<char>)
    ensures
        a == b || lex_lt(a, b) || lex_lt(b, a),
    decreases a.len(),
{
    if a.len() > 0 && b.len() > 0 {
        if a[0] == b[0] {
            lemma_lex_lt_total(a.drop_first(), b.drop_first());
            if a.drop_first() == b.drop_first() {
                assert(a =~= seq![a[0]] + a.drop_first());
                assert(b =~= seq![b[0]] + b.drop_first());
            }
        }
    } else if a.len() == 0 && b.len() == 0 {
        assert(a =~= b);
    }
}

/// Whether `a` comes strictly before `b`.
pub fn str_lt(a: &str, b: &str) -> (r: bool)
    ensures
        r == lex_lt(a@, b@),
{
    let n = a.unicode_len();
    let m = b.unicode_len();
    let mut i: usize = 0;
    proof {
        assert(a@.skip(0) =~= a@);
        assert(b@.skip(0) =~= b@);
    }
    while i < n && i < m
        invariant
            n == a@.len(),
            m == b@.len(),
            i <= n,
            i <= m,
            lex_lt(a@, b@) == lex_lt(a@.skip(i as int), b@.skip(i as int)),
        decreases n - i,
    {
        let x = a.get_char(i);
        let y = b.get_char(i);
        proof {
            assert(a@.skip(i as int)[0] == x);
            assert(b@.skip(i as int)[0] == y);
        }
        if x != y {
            return x < y;
        }
        proof {
            assert(a@.skip(i as int).drop_first() =~= a@.skip(i + 1));
            assert(b@.skip(i as int).drop_first() =~= b@.skip(i + 1));
        }
        i = i + 1;
    }
    i < m
}

/// The keys of `s` strictly increase, so no key occurs twice.
pub open spec fn keys_sorted<T>(s: Seq<(String, T)>) -> bool {
    forall|i: int, j: int| 0 <= i < j < s.len() ==> lex_lt(#[trigger] s[i].0@, #[trigger] s[j].0@)
}

/// Where `key` stands in a table sorted by key: `(i, true)` when entry `i`
/// has that key, `(i, false)` when the key is absent and belongs at `i`.
pub fn find_slot<T>(entries: &Vec<(String, T)>, key: &String) -> (r: (usize, bool))
    requires
        keys_sorted(entries@),
    ensures
        r.0 <= entries@.len(),
        r.1 ==> r.0 < entries@.len() && entries@[r.0 as int].0@ == key@,
        !r.1 ==> forall|i: int| 0 <= i < r.0 ==> lex_lt(#[trigger] entries@[i].0@, key@),
        !r.1 ==> forall|i: int| r.0 <= i < entries@.len() ==> lex_lt(key@, #[trigger] entries@[i].0@),
{
    let n = entries.len();
    let mut i: usize = 0;
    while i < n
        invariant
            n == entries@.len(),
            i <= n,
            keys_sorted(entries@),
            forall|j: int| 0 <= j < i ==> lex_lt(#[trigger] entries@[j].0@, key@),
        decreases n - i,
    {
        if entries[i].0 == *key {
            return (i, true);
        }
        if str_lt(key.as_str(), entries[i].0.as_str()) {
            proof {
                assert forall|j: int| i <= j < n implies lex_lt(key@, #[trigger] entries@[j].0@) by {
                    if j > i {
                        lemma_lex_lt_transitive(key@, entries@[i as int].0@, entries@[j].0@);
                    }
                }
            }
            return (i, false);
        }
        proof {
            lemma_lex_lt_total(key@, entries@[i as int].0@);
        }
        i = i + 1;
    }
    (i, false)
}

/// Inserting a key where `find_slot` places it keeps the table sorted.
pub proof fn lemma_insert_keeps_sorted<T>(s: Seq<(String, T)>, p: int, e: (String, T))
    requires
        keys_sorted(s),
        0 <= p <= s.len(),
        forall|i: int| 0 <= i < p ==> lex_lt(#[trigger] s[i].0@, e.0@),
        forall|i: int| p <= i < s.len() ==> lex_lt(e.0@, #[trigger] s[i].0@),
    ensures
        keys_sorted(s.insert(p, e)),
{
    let t = s.insert(p, e);
    assert forall|i: int, j: int| 0 <= i < j < t.len() implies lex_lt(#[trigger] t[i].0@, #[trigger] t[j].0@) by {
        if i < p && j > p {
            lemma_lex_lt_transitive(t[i].0@, e.0@, t[j].0@);
        } else if i < p && j < p {
            assert(t[i] == s[i] && t[j] == s[j]);
        } else if i > p {
            assert(t[i] == s[i - 1] && t[j] == s[j - 1]);
        } else if i < p {
            assert(t[i] == s[i]);
        } else {
            assert(t[j] == s[j - 1]);
        }
    }
}

/// Keys in a sorted table are pairwise distinct.
pub proof fn lemma_sorted_keys_distinct<T>(s: Seq<(String, T)>, i: int, j: int)
    requires
        keys_sorted(s),
        0 <= i < s.len(),
        0 <= j < s.len(),
        i != j,
    ensures
        s[i].0@ != s[j].0@,
{
    if i < j {
        lemma_lex_lt_irreflexive(s[i].0@);
    } else {
        lemma_lex_lt_irreflexive(s[j].0@);
    }
}

}
