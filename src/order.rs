//! The listing order of contacts: by last name, then first name, each
//! compared character by character.

use vstd::prelude::*;
use crate::contact::{Contact, ContactView};

verus! {

/// `a` comes strictly before `b` in lexicographic order of characters.
pub open spec fn text_before(a: Seq<char>, b: Seq<char>) -> bool
    decreases a.len(),
{
    if a.len() == 0 {
        b.len() > 0
    } else if b.len() == 0 {
        false
    } else if a[0] != b[0] {
        a[0] < b[0]
    } else {
        text_before(a.drop_first(), b.drop_first())
    }
}

/// `a` is listed strictly before `b`: by last name, then by first name.
#[verifier::opaque]
pub open spec fn name_before(a: ContactView, b: ContactView) -> bool {
    text_before(a.last_name, b.last_name)
        || (a.last_name == b.last_name && text_before(a.first_name, b.first_name))
}

/// No contact of `s` is listed strictly before the one ahead of it.
pub open spec fn listed_in_order(s: Seq<ContactView>) -> bool {
    forall|t: int| 0 <= t < s.len() - 1 ==> !name_before(#[trigger] s[t + 1], s[t])
}

pub proof fn lemma_text_before_asymmetric(a: Seq<char>, b: Seq<char>)
    ensures
        text_before(a, b) ==> !text_before(b, a),
    decreases a.len(),
{
    if a.len() > 0 && b.len() > 0 && a[0] == b[0] {
        lemma_text_before_asymmetric(a.drop_first(), b.drop_first());
    }
}

pub proof fn lemma_name_before_asymmetric(a: ContactView, b: ContactView)
    ensures
        name_before(a, b) ==> !name_before(b, a),
{
    reveal(name_before);
    lemma_text_before_asymmetric(a.last_name, b.last_name);
    lemma_text_before_asymmetric(a.first_name, b.first_name);
    lemma_text_before_asymmetric(a.last_name, a.last_name);
}

pub proof fn lemma_text_before_transitive(a: Seq<char>, b: Seq<char>, c: Seq<char>)
    requires
        text_before(a, b),
        text_before(b, c),
    ensures
        text_before(a, c),
    decreases a.len(),
{
    if a.len() > 0 && a[0] == b[0] && b[0] == c[0] {
        lemma_text_before_transitive(a.drop_first(), b.drop_first(), c.drop_first());
    }
}

pub proof fn lemma_text_before_total(a: Seq<char>, b: Seq<char>)
    requires
        a != b,
    ensures
        text_before(a, b) || text_before(b, a),
    decreases a.len(),
{
    if a.len() > 0 && b.len() > 0 && a[0] == b[0] {
        if a.drop_first() == b.drop_first() {
            assert(a.drop_first().len() == a.len() - 1 && b.drop_first().len() == b.len() - 1);
            assert(a.len() == b.len());
            assert(a =~= b) by {
                assert forall|i: int| 0 <= i < a.len() implies a[i] == b[i] by {
                    if i > 0 {
                        assert(a[i] == a.drop_first()[i - 1]);
                        assert(b[i] == b.drop_first()[i - 1]);
                    }
                }
            }
        }
        lemma_text_before_total(a.drop_first(), b.drop_first());
    } else if a.len() == 0 && b.len() == 0 {
        assert(a =~= b);
    }
}

pub proof fn lemma_name_before_transitive(a: ContactView, b: ContactView, c: ContactView)
    requires
        name_before(a, b),
        name_before(b, c),
    ensures
        name_before(a, c),
{
    reveal(name_before);
    if text_before(a.last_name, b.last_name) && text_before(b.last_name, c.last_name) {
        lemma_text_before_transitive(a.last_name, b.last_name, c.last_name);
    } else if a.last_name == b.last_name && b.last_name == c.last_name {
        lemma_text_before_transitive(a.first_name, b.first_name, c.first_name);
    }
}

/// Of two contacts with different names, one is listed strictly before the other.
pub proof fn lemma_name_before_total(a: ContactView, b: ContactView)
    requires
        a.last_name != b.last_name || a.first_name != b.first_name,
    ensures
        name_before(a, b) || name_before(b, a),
{
    reveal(name_before);
    if a.last_name != b.last_name {
        lemma_text_before_total(a.last_name, b.last_name);
    } else {
        lemma_text_before_total(a.first_name, b.first_name);
    }
}

/// Every contact of `s` is listed strictly before each one after it.
pub open spec fn strictly_in_order(s: Seq<ContactView>) -> bool {
    forall|t: int, u: int| 0 <= t < u < s.len() ==> name_before(#[trigger] s[t], #[trigger] s[u])
}

/// Two strictly ordered sequences of the same contacts are equal: `f` finds
/// each contact of `s1` in `s2`, and `g` each of `s2` in `s1`.
pub proof fn lemma_strict_order_unique(s1: Seq<ContactView>, s2: Seq<ContactView>, f: spec_fn(int) -> int, g: spec_fn(int) -> int)
    requires
        strictly_in_order(s1),
        strictly_in_order(s2),
        forall|t: int| 0 <= t < s1.len() ==> 0 <= #[trigger] f(t) < s2.len() && s2[f(t)] == s1[t],
        forall|u: int| 0 <= u < s2.len() ==> 0 <= #[trigger] g(u) < s1.len() && s1[g(u)] == s2[u],
    ensures
        s1 == s2,
    decreases s1.len(),
{
    if s1.len() == 0 {
        if s2.len() > 0 {
            assert(0 <= g(0) < s1.len());
        }
        assert(s1 =~= s2);
    } else {
        let u = f(0);
        let t = g(0);
        lemma_name_before_asymmetric(s1[0], s1[0]);
        if u > 0 {
            assert(name_before(s2[0], s2[u]));
            if t > 0 {
                assert(name_before(s1[0], s1[t]));
                lemma_name_before_asymmetric(s1[0], s1[t]);
            }
        }
        assert(u == 0);
        let r1 = s1.drop_first();
        let r2 = s2.drop_first();
        let f2 = |a: int| f(a + 1) - 1;
        let g2 = |b: int| g(b + 1) - 1;
        assert forall|a: int| 0 <= a < r1.len() implies 0 <= #[trigger] f2(a) < r2.len() && r2[f2(a)] == r1[a] by {
            assert(0 <= f(a + 1) < s2.len());
            assert(name_before(s1[0], s1[a + 1]));
            assert(f(a + 1) != 0);
        }
        assert forall|b: int| 0 <= b < r2.len() implies 0 <= #[trigger] g2(b) < r1.len() && r1[g2(b)] == r2[b] by {
            assert(0 <= g(b + 1) < s1.len());
            assert(name_before(s2[0], s2[b + 1]));
            assert(g(b + 1) != 0);
        }
        assert(strictly_in_order(r1)) by {
            assert forall|x: int, y: int| 0 <= x < y < r1.len() implies name_before(#[trigger] r1[x], #[trigger] r1[y]) by {
                assert(r1[x] == s1[x + 1] && r1[y] == s1[y + 1]);
            }
        }
        assert(strictly_in_order(r2)) by {
            assert forall|x: int, y: int| 0 <= x < y < r2.len() implies name_before(#[trigger] r2[x], #[trigger] r2[y]) by {
                assert(r2[x] == s2[x + 1] && r2[y] == s2[y + 1]);
            }
        }
        lemma_strict_order_unique(r1, r2, f2, g2);
        assert(s1 =~= s2) by {
            assert forall|i: int| 0 <= i < s1.len() implies s1[i] == s2[i] by {
                if i > 0 {
                    assert(s1[i] == r1[i - 1] && s2[i] == r2[i - 1]);
                }
            }
        }
    }
}

/// In order, with neighbours differing in name, means strictly in order.
pub proof fn lemma_strictly_in_order(s: Seq<ContactView>)
    requires
        listed_in_order(s),
        forall|t: int| 0 <= t < s.len() - 1 ==> (#[trigger] s[t]).last_name != s[t + 1].last_name
            || s[t].first_name != s[t + 1].first_name,
    ensures
        strictly_in_order(s),
{
    assert forall|t: int| 0 <= t < s.len() - 1 implies name_before(#[trigger] s[t], s[t + 1]) by {
        lemma_name_before_total(s[t], s[t + 1]);
        assert(!name_before(s[t + 1], s[t]));
    }
    assert forall|t: int, u: int| 0 <= t < u < s.len() implies name_before(#[trigger] s[t], #[trigger] s[u]) by {
        lemma_strict_step(s, t, u);
    }
}

proof fn lemma_strict_step(s: Seq<ContactView>, t: int, u: int)
    requires
        0 <= t < u < s.len(),
        forall|i: int| 0 <= i < s.len() - 1 ==> name_before(#[trigger] s[i], s[i + 1]),
    ensures
        name_before(s[t], s[u]),
    decreases u - t,
{
    if u > t + 1 {
        lemma_strict_step(s, t, u - 1);
        assert(name_before(s[u - 1], s[(u - 1) + 1]));
        lemma_name_before_transitive(s[t], s[u - 1], s[u]);
    }
}

/// Whether `a` comes strictly before `b`, character by character.
pub fn text_less(a: &str, b: &str) -> (r: bool)
    ensures
        r == text_before(a@, b@),
{
    let na = a.unicode_len();
    let nb = b.unicode_len();
    let mut i: usize = 0;
    assert(a@.subrange(0, na as int) =~= a@);
    assert(b@.subrange(0, nb as int) =~= b@);
    while i < na && i < nb
        invariant
            na == a@.len(),
            nb == b@.len(),
            0 <= i <= na,
            i <= nb,
            text_before(a@, b@) == text_before(a@.subrange(i as int, na as int), b@.subrange(i as int, nb as int)),
        decreases na - i,
    {
        let ca = a.get_char(i);
        let cb = b.get_char(i);
        let ghost sa = a@.subrange(i as int, na as int);
        let ghost sb = b@.subrange(i as int, nb as int);
        assert(sa[0] == ca && sb[0] == cb);
        if ca != cb {
            return ca < cb;
        }
        assert(sa.drop_first() =~= a@.subrange(i as int + 1, na as int));
        assert(sb.drop_first() =~= b@.subrange(i as int + 1, nb as int));
        i += 1;
    }
    i == na && i < nb
}

/// Whether contact `a` is listed strictly before contact `b`.
pub fn listed_before(a: &Contact, b: &Contact) -> (r: bool)
    ensures
        r == name_before(a@, b@),
{
    reveal(name_before);
    if text_less(a.last_name.as_str(), b.last_name.as_str()) {
        true
    } else {
        a.last_name == b.last_name && text_less(a.first_name.as_str(), b.first_name.as_str())
    }
}

} // verus!
