//! Text utilities shared by the rest of the library: decimal rendering,
//! string building and the lexicographic order on strings.
use vstd::prelude::*;

verus! {

/// The character of a decimal digit `d` (`d < 10`).
pub open spec fn digit_char(d: nat) -> char {
    if d == 0 {
        '0'
    } else if d == 1 {
        '1'
    } else if d == 2 {
        '2'
    } else if d == 3 {
        '3'
    } else if d == 4 {
        '4'
    } else if d == 5 {
        '5'
    } else if d == 6 {
        '6'
    } else if d == 7 {
        '7'
    } else if d == 8 {
        '8'
    } else {
        '9'
    }
}

/// The decimal representation of `n`, without leading zeros ("0" for zero).
pub open spec fn decimal(n: nat) -> Seq<char>
    decreases n,
{
    if n < 10 {
        seq![digit_char(n)]
    } else {
        decimal(n / 10).push(digit_char(n % 10))
    }
}

/// Appends one character to a string (`String::push`).
#[verifier::external_body]
pub(crate) fn push_char(s: &mut String, c: char)
    ensures
        final(s)@ == old(s)@.push(c),
{
    s.push(c)
}

/// The character of a decimal digit.
pub fn digit_to_char(d: u8) -> (c: char)
    requires
        d < 10,
    ensures
        c == digit_char(d as nat),
{
    if d == 0 {
        '0'
    } else if d == 1 {
        '1'
    } else if d == 2 {
        '2'
    } else if d == 3 {
        '3'
    } else if d == 4 {
        '4'
    } else if d == 5 {
        '5'
    } else if d == 6 {
        '6'
    } else if d == 7 {
        '7'
    } else if d == 8 {
        '8'
    } else {
        '9'
    }
}

/// Appends the decimal representation of `n` to `s`.
pub fn push_decimal(s: &mut String, n: u128)
    ensures
        final(s)@ == old(s)@ + decimal(n as nat),
    decreases n,
{
    if n >= 10 {
        push_decimal(s, n / 10);
    }
    push_char(s, digit_to_char((n % 10) as u8));
    proof {
        if n >= 10 {
            assert(decimal(n as nat) == decimal((n / 10) as nat).push(digit_char((n % 10) as nat)));
        }
    }
}

/// Appends the characters of `t` to `s`.
pub fn push_str(s: &mut String, t: &str)
    ensures
        final(s)@ == old(s)@ + t@,
{
    s.append(t);
}

/// A string made of the characters of `t`.
pub fn string_of(t: &str) -> (r: String)
    ensures
        r@ == t@,
{
    String::from_str(t)
}

/// The characters of a string, one by one.
pub fn chars_of(s: &str) -> (r: Vec<char>)
    ensures
        r@ == s@,
{
    let n = s.unicode_len();
    let mut r: Vec<char> = Vec::new();
    let mut i: usize = 0;
    while i < n
        invariant
            n == s@.len(),
            i <= n,
            r@ == s@.subrange(0, i as int),
        decreases n - i,
    {
        let c = s.get_char(i);
        r.push(c);
        i = i + 1;
        assert(r@ =~= s@.subrange(0, i as int));
    }
    assert(r@ =~= s@);
    r
}

/// `a` comes strictly before `b` in the lexicographic order of their
/// characters, each character taken by its scalar value. On UTF-8 strings
/// this is the order of `String`'s `Ord`, which compares the bytes.
pub open spec fn lex_lt(a: Seq<char>, b: Seq<char>) -> bool
    decreases a.len(),
{
    if a.len() == 0 {
        b.len() > 0
    } else if b.len() == 0 {
        false
    } else if a[0] != b[0] {
        (a[0] as int) < (b[0] as int)
    } else {
        lex_lt(a.drop_first(), b.drop_first())
    }
}

/// No string comes before itself.
pub proof fn lemma_lex_irreflexive(a: Seq<char>)
    ensures
        !lex_lt(a, a),
    decreases a.len(),
{
    if a.len() > 0 {
        lemma_lex_irreflexive(a.drop_first());
    }
}

/// Of two different strings, one comes before the other.
pub proof fn lemma_lex_total(a: Seq<char>, b: Seq<char>)
    ensures
        a != b ==> lex_lt(a, b) || lex_lt(b, a),
    decreases a.len(),
{
    if a.len() > 0 && b.len() > 0 && a[0] == b[0] {
        lemma_lex_total(a.drop_first(), b.drop_first());
        if a.drop_first() == b.drop_first() {
            assert(a =~= seq![a[0]] + a.drop_first());
            assert(b =~= seq![b[0]] + b.drop_first());
        }
    } else if a.len() == 0 && b.len() == 0 {
        assert(a =~= b);
    }
}

/// The order is asymmetric.
pub proof fn lemma_lex_asymmetric(a: Seq<char>, b: Seq<char>)
    ensures
        lex_lt(a, b) ==> !lex_lt(b, a),
    decreases a.len(),
{
    if a.len() > 0 && b.len() > 0 && a[0] == b[0] {
        lemma_lex_asymmetric(a.drop_first(), b.drop_first());
    }
}

/// The order is transitive.
pub proof fn lemma_lex_transitive(a: Seq<char>, b: Seq<char>, c: Seq<char>)
    ensures
        lex_lt(a, b) && lex_lt(b, c) ==> lex_lt(a, c),
    decreases a.len(),
{
    if a.len() > 0 && b.len() > 0 && c.len() > 0 && a[0] == b[0] && b[0] == c[0] {
        lemma_lex_transitive(a.drop_first(), b.drop_first(), c.drop_first());
    }
}

/// Whether `a` comes strictly before `b` in the lexicographic order.
pub fn lex_less(a: &Vec<char>, b: &Vec<char>) -> (r: bool)
    ensures
        r == lex_lt(a@, b@),
{
    let mut i: usize = 0;
    assert(a@.skip(0) =~= a@);
    assert(b@.skip(0) =~= b@);
    while i < a.len() && i < b.len() && a[i] == b[i]
        invariant
            i <= a.len(),
            i <= b.len(),
            lex_lt(a@, b@) == lex_lt(a@.skip(i as int), b@.skip(i as int)),
        decreases a.len() - i,
    {
        assert(a@.skip(i as int).drop_first() =~= a@.skip(i + 1));
        assert(b@.skip(i as int).drop_first() =~= b@.skip(i + 1));
        i = i + 1;
    }
    if i == a.len() {
        i < b.len()
    } else if i == b.len() {
        false
    } else {
        a[i] < b[i]
    }
}

/// The views of a sequence of strings.
pub open spec fn views(s: Seq<String>) -> Seq<Seq<char>> {
    s.map_values(|x: String| x@)
}

/// Every string comes strictly before the ones after it.
pub open spec fn strictly_sorted(s: Seq<Seq<char>>) -> bool {
    forall|i: int, j: int| 0 <= i < j < s.len() ==> lex_lt(#[trigger] s[i], #[trigger] s[j])
}

/// Inserts `x` into a strictly sorted vector, unless it is there already;
/// the vector stays strictly sorted and gains exactly `x`.
pub fn insert_sorted_unique(v: &mut Vec<String>, x: String)
    requires
        strictly_sorted(views(old(v)@)),
    ensures
        strictly_sorted(views(final(v)@)),
        views(final(v)@).to_set() == views(old(v)@).to_set().insert(x@),
{
    let xc = chars_of(x.as_str());
    let ghost old_views = views(v@);
    let mut i: usize = 0;
    let mut found = false;
    while i < v.len()
        invariant_except_break
            i <= v.len(),
            v@ == old(v)@,
            xc@ == x@,
            forall|k: int| 0 <= k < i ==> lex_lt(#[trigger] views(v@)[k], x@),
        ensures
            i <= v.len(),
            v@ == old(v)@,
            forall|k: int| 0 <= k < i ==> lex_lt(#[trigger] views(v@)[k], x@),
            i < v.len() ==> !lex_lt(views(v@)[i as int], x@),
        decreases v.len() - i,
    {
        let vc = chars_of(v[i].as_str());
        if !lex_less(&vc, &xc) {
            break;
        }
        i = i + 1;
    }
    if i < v.len() && v[i] == x {
        found = true;
    }
    if found {
        assert(views(v@)[i as int] == x@);
        assert(views(v@).to_set().insert(x@) =~= views(v@).to_set()) by {
            assert(views(v@).contains(x@));
        }
    } else {
        proof {
            if i < v.len() {
                lemma_lex_total(views(v@)[i as int], x@);
            }
        }
        v.insert(i, x);
        proof {
            let nv = views(v@);
            assert(nv =~= old_views.insert(i as int, x@));
            assert forall|a: int, b: int| 0 <= a < b < nv.len() implies lex_lt(
                #[trigger] nv[a],
                #[trigger] nv[b],
            ) by {
                if b < i {
                    assert(lex_lt(old_views[a], old_views[b]));
                } else if a < i && b == i {
                } else if a < i && b > i {
                    assert(lex_lt(old_views[a], old_views[b - 1]));
                } else if a == i && b > i {
                    if b - 1 > i {
                        assert(lex_lt(old_views[i as int], old_views[b - 1]));
                        lemma_lex_transitive(x@, old_views[i as int], old_views[b - 1]);
                    }
                } else {
                    assert(lex_lt(old_views[a - 1], old_views[b - 1]));
                }
            }
            assert(nv.to_set() =~= old_views.to_set().insert(x@)) by {
                assert forall|y: Seq<char>| nv.to_set().contains(y) implies old_views.to_set().insert(
                    x@,
                ).contains(y) by {
                    let k = choose|k: int| 0 <= k < nv.len() && nv[k] == y;
                    if k < i {
                        assert(old_views[k] == y);
                    } else if k > i {
                        assert(old_views[k - 1] == y);
                    }
                }
                assert forall|y: Seq<char>| old_views.to_set().insert(x@).contains(y) implies nv.to_set().contains(y) by {
                    if y == x@ {
                        assert(nv[i as int] == y);
                    } else {
                        let k = choose|k: int| 0 <= k < old_views.len() && old_views[k] == y;
                        if k < i {
                            assert(nv[k] == y);
                        } else {
                            assert(nv[k + 1] == y);
                        }
                    }
                }
            }
        }
    }
}

} // verus!
