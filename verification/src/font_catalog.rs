//! The list of font families the font service offers: every family name
//! once, in ascending order.
use vstd::prelude::*;
use crate::char_seq::{chars_equal, str_chars};

verus! {

/// `a` sorts before `b` character by character (by code point), a proper
/// prefix before the longer text. For strings this is the order of their
/// UTF-8 bytes, the order of `String`.
pub open spec fn chars_less(a: Seq<char>, b: Seq<char>) -> bool
    decreases a.len(),
{
    if a.len() == 0 {
        b.len() > 0
    } else if b.len() == 0 {
        false
    } else if a[0] != b[0] {
        a[0] < b[0]
    } else {
        chars_less(a.drop_first(), b.drop_first())
    }
}

/// No text sorts before itself, and of two different texts exactly one
/// sorts first.
pub proof fn lemma_chars_less_total(a: Seq<char>, b: Seq<char>)
    ensures
        !chars_less(a, a),
        a != b ==> (chars_less(a, b) || chars_less(b, a)),
        !(chars_less(a, b) && chars_less(b, a)),
    decreases a.len(),
{
    if a.len() > 0 && b.len() > 0 {
        lemma_chars_less_total(a.drop_first(), b.drop_first());
        lemma_chars_less_total(a.drop_first(), a.drop_first());
        if a[0] == b[0] && a != b {
            assert(a.drop_first() != b.drop_first()) by {
                if a.drop_first() == b.drop_first() {
                    assert(a =~= seq![a[0]] + a.drop_first());
                    assert(b =~= seq![b[0]] + b.drop_first());
                }
            }
        }
    } else if a.len() > 0 {
        lemma_chars_less_total(a.drop_first(), a.drop_first());
    } else if b.len() == 0 {
        assert(a =~= b);
    }
}

/// The order is transitive.
pub proof fn lemma_chars_less_transitive(a: Seq<char>, b: Seq<char>, c: Seq<char>)
    requires
        chars_less(a, b),
        chars_less(b, c),
    ensures
        chars_less(a, c),
    decreases a.len(),
{
    if a.len() > 0 && b.len() > 0 && c.len() > 0 {
        if a[0] == b[0] && b[0] == c[0] {
            lemma_chars_less_transitive(a.drop_first(), b.drop_first(), c.drop_first());
        }
    }
}

/// The order of the family list is the order of `String`: a text sorts
/// before every longer text it begins, and two texts that first differ at
/// some position sort as their characters there do.
pub proof fn lemma_chars_less_is_string_order(
    a: Seq<char>,
    b: Seq<char>,
    s: Seq<char>,
    x: char,
    y: char,
    t: Seq<char>,
    u: Seq<char>,
)
    ensures
        b.len() > 0 ==> chars_less(a, a + b),
        b.len() > 0 ==> !chars_less(a + b, a),
        x != y ==> (chars_less(s.push(x) + t, s.push(y) + u) <==> x < y),
    decreases a.len() + s.len(),
{
    if a.len() == 0 {
        assert(a + b =~= b);
    } else {
        assert((a + b).drop_first() =~= a.drop_first() + b);
        lemma_chars_less_is_string_order(a.drop_first(), b, seq![], x, y, t, u);
    }
    let l = s.push(x) + t;
    let r = s.push(y) + u;
    if s.len() == 0 {
        assert(l[0] == x && r[0] == y);
    } else {
        assert(l[0] == s[0] && r[0] == s[0]);
        assert(l.drop_first() =~= s.drop_first().push(x) + t);
        assert(r.drop_first() =~= s.drop_first().push(y) + u);
        lemma_chars_less_is_string_order(seq![], b, s.drop_first(), x, y, t, u);
    }
}

fn less_than(a: &Vec<char>, b: &Vec<char>) -> (r: bool)
    ensures
        r == chars_less(a@, b@),
{
    let mut i: usize = 0;
    assert(a@.skip(0) =~= a@);
    assert(b@.skip(0) =~= b@);
    while i < a.len() && i < b.len() && a[i] == b[i]
        invariant
            i <= a.len(),
            i <= b.len(),
            chars_less(a@, b@) == chars_less(a@.skip(i as int), b@.skip(i as int)),
        decreases a.len() - i,
    {
        assert(a@.skip(i as int).drop_first() =~= a@.skip(i as int + 1));
        assert(b@.skip(i as int).drop_first() =~= b@.skip(i as int + 1));
        i += 1;
    }
    if i == a.len() {
        i < b.len()
    } else if i == b.len() {
        false
    } else {
        a[i] < b[i]
    }
}

/// Some string of `s` holds the characters `x`.
pub open spec fn has_name(s: Seq<String>, x: Seq<char>) -> bool {
    exists|i: int| 0 <= i < s.len() && #[trigger] s[i]@ == x
}

/// The family names, each once, in ascending order.
pub fn sorted_family_names(names: &Vec<String>) -> (out: Vec<String>)
    ensures
        forall|i: int, j: int| 0 <= i < j < out.len() ==> chars_less(#[trigger] out@[i]@, #[trigger] out@[j]@),
        forall|i: int| 0 <= i < out.len() ==> has_name(names@, #[trigger] out@[i]@),
        forall|k: int| 0 <= k < names.len() ==> has_name(out@, #[trigger] names@[k]@),
{
    let mut out: Vec<String> = Vec::new();
    let mut keys: Vec<Vec<char>> = Vec::new();
    let mut n: usize = 0;
    while n < names.len()
        invariant
            n <= names.len(),
            keys.len() == out.len(),
            forall|i: int| 0 <= i < out.len() ==> #[trigger] keys@[i]@ == out@[i]@,
            forall|i: int, j: int| 0 <= i < j < out.len() ==> chars_less(#[trigger] out@[i]@, #[trigger] out@[j]@),
            forall|i: int| 0 <= i < out.len() ==> has_name(names@, #[trigger] out@[i]@),
            forall|k: int| 0 <= k < n ==> has_name(out@, #[trigger] names@[k]@),
        decreases names.len() - n,
    {
        let key = str_chars(names[n].as_str());
        let mut p: usize = 0;
        while p < keys.len() && less_than(&keys[p], &key)
            invariant
                p <= keys.len(),
                keys.len() == out.len(),
                forall|i: int| 0 <= i < out.len() ==> #[trigger] keys@[i]@ == out@[i]@,
                forall|i: int| 0 <= i < p ==> chars_less(#[trigger] out@[i]@, key@),
            decreases keys.len() - p,
        {
            p += 1;
        }
        let duplicate = p < keys.len() && chars_equal(keys[p].as_slice(), key.as_slice());
        if !duplicate {
            let ghost old_out = out@;
            let name = names[n].clone();
            proof {
                if p < keys.len() {
                    lemma_chars_less_total(out@[p as int]@, key@);
                }
                assert forall|j: int| p <= j < old_out.len() implies chars_less(key@, #[trigger] old_out[j]@) by {
                    if j > p {
                        lemma_chars_less_transitive(key@, old_out[p as int]@, old_out[j]@);
                    }
                }
            }
            out.insert(p, name);
            keys.insert(p, key);
            proof {
                assert forall|i: int, j: int| 0 <= i < j < out.len() implies chars_less(#[trigger] out@[i]@, #[trigger] out@[j]@) by {
                    if j < p {
                        assert(out@[i] == old_out[i] && out@[j] == old_out[j]);
                    } else if j == p {
                        assert(out@[i] == old_out[i]);
                    } else if i < p {
                        assert(out@[i] == old_out[i] && out@[j] == old_out[j - 1]);
                        lemma_chars_less_transitive(old_out[i]@, key@, old_out[j - 1]@);
                    } else if i == p {
                        assert(out@[j] == old_out[j - 1]);
                    } else {
                        assert(out@[i] == old_out[i - 1] && out@[j] == old_out[j - 1]);
                    }
                }
                assert forall|i: int| 0 <= i < out.len() implies has_name(names@, #[trigger] out@[i]@) by {
                    if i < p {
                        assert(out@[i] == old_out[i]);
                    } else if i == p {
                        assert(names@[n as int]@ == out@[i]@);
                    } else {
                        assert(out@[i] == old_out[i - 1]);
                    }
                }
                assert forall|k: int| 0 <= k < n + 1 implies has_name(out@, #[trigger] names@[k]@) by {
                    if k < n {
                        let i = choose|i: int| 0 <= i < old_out.len() && old_out[i]@ == names@[k]@;
                        if i < p {
                            assert(out@[i] == old_out[i]);
                        } else {
                            assert(out@[i + 1] == old_out[i]);
                        }
                    } else {
                        assert(out@[p as int]@ == names@[k]@);
                    }
                }
            }
        } else {
            assert(out@[p as int]@ == names@[n as int]@);
        }
        n += 1;
    }
    out
}

} // verus!
