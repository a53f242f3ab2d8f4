//! Traffic metrics: how many bytes were seen per protocol, and their
//! rendering in human units.
use vstd::prelude::*;
pub use crate::listener::protocols::process_ip_packet;
use crate::text::{decimal, digit_char, digit_to_char, push_char, push_decimal, push_str, string_of};

verus! {

/// `2` to the power `e`.
pub open spec fn two_pow(e: nat) -> nat
    decreases e,
{
    if e == 0 {
        1
    } else {
        2 * two_pow((e - 1) as nat)
    }
}

/// The number of binary digits of `n` (zero for zero).
pub open spec fn bit_length(n: nat) -> nat
    decreases n,
{
    if n == 0 {
        0
    } else {
        1 + bit_length(n / 2)
    }
}

/// `a / d`, rounded to the nearest integer, ties to the even one.
pub open spec fn div_round_even(a: nat, d: nat) -> nat {
    let q = a / d;
    let r = a % d;
    if 2 * r > d || (2 * r == d && q % 2 == 1) {
        q + 1
    } else {
        q
    }
}

/// The integer nearest to `n` among those that an `f64` holds exactly
/// (53 significant bits), ties to the even one: what `n as f64` holds.
pub open spec fn f64_nearest(n: nat) -> nat {
    if bit_length(n) <= 53 {
        n
    } else {
        let p = two_pow((bit_length(n) - 53) as nat);
        div_round_even(n, p) * p
    }
}

/// The scale of the unit in which `bytes` is shown: gigabytes from 2^30
/// bytes, megabytes from 2^20, kilobytes from 2^10, else bytes.
pub open spec fn unit_divisor(bytes: nat) -> nat {
    if bytes >= 1073741824 {
        1073741824
    } else if bytes >= 1048576 {
        1048576
    } else if bytes >= 1024 {
        1024
    } else {
        1
    }
}

/// The name of the unit in which `bytes` is shown.
pub open spec fn unit_name(bytes: nat) -> Seq<char> {
    if bytes >= 1073741824 {
        "GB"@
    } else if bytes >= 1048576 {
        "MB"@
    } else if bytes >= 1024 {
        "KB"@
    } else {
        "Bytes"@
    }
}

/// The amount in its unit, in hundredths: the `f64` quotient of the bytes
/// and the unit, rounded to two decimals, ties to the even one.
pub open spec fn hundredths(bytes: nat) -> nat {
    div_round_even(f64_nearest(bytes) * 100, unit_divisor(bytes))
}

/// A number of hundredths written with two decimals, as in "12.05".
pub open spec fn two_decimals(h: nat) -> Seq<char> {
    decimal(h / 100) + seq!['.', digit_char((h % 100) / 10), digit_char(h % 10)]
}

/// An amount of bytes in human units, as `format!("{:.2} {}")` writes the
/// `f64` quotient of the bytes and the unit, and the unit's name:
/// "1.50 KB", "512.00 Bytes".
pub open spec fn amount_text(bytes: nat) -> Seq<char> {
    two_decimals(hundredths(bytes)) + " "@ + unit_name(bytes)
}

/// The text of one protocol's total: "TCP: 1.50 KB".
pub open spec fn entry_text(entry: (Seq<char>, u64)) -> Seq<char> {
    entry.0 + ": "@ + amount_text(entry.1 as nat)
}

/// The text of all totals, in order, separated by ", ".
pub open spec fn metrics_text(entries: Seq<(Seq<char>, u64)>) -> Seq<char>
    decreases entries.len(),
{
    if entries.len() == 0 {
        seq![]
    } else if entries.len() == 1 {
        entry_text(entries[0])
    } else {
        metrics_text(entries.drop_last()) + ", "@ + entry_text(entries.last())
    }
}

/// The pieces of the totals' text, one per total: its entry text, preceded
/// by ", " for every total but the first.
pub open spec fn metrics_pieces(entries: Seq<(Seq<char>, u64)>) -> Seq<Seq<char>> {
    Seq::new(
        entries.len(),
        |i: int|
            if i == 0 {
                entry_text(entries[i])
            } else {
                ", "@ + entry_text(entries[i])
            },
    )
}

/// The text of the totals is their entry texts laid end to end, each after
/// the first preceded by ", ": one piece per total, none left out.
pub proof fn lemma_metrics_text_joined(entries: Seq<(Seq<char>, u64)>)
    ensures
        metrics_text(entries) == metrics_pieces(entries).flatten(),
    decreases entries.len(),
{
    let n = entries.len();
    if n == 0 {
        assert(metrics_pieces(entries) =~= Seq::<Seq<char>>::empty());
        assert(metrics_text(entries) =~= metrics_pieces(entries).flatten());
    } else if n == 1 {
        assert(metrics_pieces(entries).drop_first() =~= Seq::<Seq<char>>::empty());
        assert(metrics_pieces(entries).drop_first().flatten() =~= Seq::<char>::empty());
        assert(metrics_pieces(entries).first() == entry_text(entries[0]));
        assert(metrics_text(entries) =~= metrics_pieces(entries).flatten());
    } else {
        let d = entries.drop_last();
        lemma_metrics_text_joined(d);
        let last = ", "@ + entry_text(entries.last());
        assert(metrics_pieces(entries) =~= metrics_pieces(d).push(last));
        metrics_pieces(d).lemma_flatten_push(last);
        assert(metrics_text(entries) =~= metrics_pieces(d).flatten() + last);
    }
}

/// The text of the totals splits after any of them: the text of the first
/// `k`, ", ", and the text of the rest.
pub proof fn lemma_metrics_text_split(entries: Seq<(Seq<char>, u64)>, k: int)
    requires
        0 < k < entries.len(),
    ensures
        metrics_text(entries) == metrics_text(entries.take(k)) + ", "@ + metrics_text(
            entries.skip(k),
        ),
    decreases entries.len(),
{
    let n = entries.len();
    let d = entries.drop_last();
    if k == n - 1 {
        assert(entries.take(k) =~= d);
        assert(entries.skip(k) =~= seq![entries.last()]);
        assert(metrics_text(entries.skip(k)) == entry_text(entries.last()));
    } else {
        lemma_metrics_text_split(d, k);
        assert(d.take(k) =~= entries.take(k));
        assert(entries.skip(k).drop_last() =~= d.skip(k));
        assert(entries.skip(k).last() == entries.last());
        assert(metrics_text(entries.skip(k)) == metrics_text(d.skip(k)) + ", "@ + entry_text(
            entries.last(),
        ));
        assert(metrics_text(entries) =~= metrics_text(entries.take(k)) + ", "@ + metrics_text(
            entries.skip(k),
        ));
    }
}

/// The text of the totals starts with the entry text of the first.
proof fn lemma_metrics_text_starts(entries: Seq<(Seq<char>, u64)>)
    requires
        entries.len() > 0,
    ensures
        entry_text(entries[0]).len() <= metrics_text(entries).len(),
        metrics_text(entries).subrange(0, entry_text(entries[0]).len() as int) == entry_text(
            entries[0],
        ),
    decreases entries.len(),
{
    if entries.len() > 1 {
        let d = entries.drop_last();
        lemma_metrics_text_starts(d);
        assert(d[0] == entries[0]);
        let t = metrics_text(d) + ", "@ + entry_text(entries.last());
        assert(t.subrange(0, entry_text(entries[0]).len() as int) =~= metrics_text(d).subrange(
            0,
            entry_text(entries[0]).len() as int,
        ));
    }
}

/// For every total, "<protocol>: <amount>" occurs in the text of the
/// totals.
pub proof fn lemma_metrics_text_has_entry(entries: Seq<(Seq<char>, u64)>, k: int)
    requires
        0 <= k < entries.len(),
    ensures
        exists|o: int|
            0 <= o && o + entry_text(entries[k]).len() <= metrics_text(entries).len()
                && #[trigger] metrics_text(entries).subrange(o, o + entry_text(entries[k]).len())
                == entries[k].0 + ": "@ + amount_text(entries[k].1 as nat),
{
    let e = entry_text(entries[k]);
    let t = metrics_text(entries);
    if k == 0 {
        lemma_metrics_text_starts(entries);
        assert(t.subrange(0, 0 + e.len() as int) == entries[k].0 + ": "@ + amount_text(entries[k].1 as nat));
    } else {
        lemma_metrics_text_split(entries, k);
        let rest = entries.skip(k);
        lemma_metrics_text_starts(rest);
        assert(rest[0] == entries[k]);
        let pre = metrics_text(entries.take(k)) + ", "@;
        let o = pre.len() as int;
        assert(t == pre + metrics_text(rest));
        assert(t.subrange(o, o + e.len()) =~= metrics_text(rest).subrange(0, e.len() as int));
        assert(t.subrange(o, o + e.len()) == entries[k].0 + ": "@ + amount_text(entries[k].1 as nat));
    }
}

/// A number below `2^k` has at most `k` binary digits.
proof fn lemma_bit_length_bound(n: nat, k: nat)
    requires
        n < two_pow(k),
    ensures
        bit_length(n) <= k,
    decreases k,
{
    if k > 0 && n > 0 {
        lemma_bit_length_bound(n / 2, (k - 1) as nat);
    }
}

/// Powers of two grow with the exponent.
proof fn lemma_two_pow_monotone(a: nat, b: nat)
    requires
        a <= b,
    ensures
        two_pow(a) <= two_pow(b),
        two_pow(a) >= 1,
    decreases b,
{
    if b > a {
        lemma_two_pow_monotone(a, (b - 1) as nat);
    } else if a > 0 {
        lemma_two_pow_monotone((a - 1) as nat, (a - 1) as nat);
    }
}

/// `two_pow(64)` is `2^64`.
proof fn lemma_two_pow_64()
    ensures
        two_pow(64) == 0x1_0000_0000_0000_0000,
        two_pow(11) == 2048,
{
    reveal_with_fuel(two_pow, 65);
}

/// What `n as f64` holds, as an integer.
pub fn f64_nearest_u64(n: u64) -> (r: u128)
    ensures
        r == f64_nearest(n as nat),
{
    let mut bits: u64 = 0;
    let mut m: u64 = n;
    assert(two_pow(0) == 1);
    assert(m as nat * two_pow(0) == n);
    while m > 0
        invariant
            bit_length(n as nat) == bits + bit_length(m as nat),
            bits <= 64,
            m as nat * two_pow(bits as nat) <= n,
        decreases m,
    {
        proof {
            lemma_two_pow_monotone(0, bits as nat);
            assert(m as nat * two_pow(bits as nat) >= two_pow(bits as nat)) by (nonlinear_arith)
                requires
                    m >= 1,
            ;
            if bits == 64 {
                lemma_two_pow_64();
            }
            assert((m / 2) as nat * two_pow((bits + 1) as nat) <= m as nat * two_pow(bits as nat))
                by (nonlinear_arith)
                requires
                    two_pow((bits + 1) as nat) == 2 * two_pow(bits as nat),
            ;
        }
        m = m / 2;
        bits = bits + 1;
    }
    if bits <= 53 {
        n as u128
    } else {
        let s: u64 = bits - 53;
        let mut p: u128 = 1;
        let mut k: u64 = 0;
        proof {
            lemma_two_pow_64();
            lemma_bit_length_bound(n as nat, 64);
        }
        while k < s
            invariant
                k <= s,
                s <= 11,
                p == two_pow(k as nat),
                1 <= p <= 2048,
            decreases s - k,
        {
            proof {
                lemma_two_pow_monotone((k + 1) as nat, 11);
                lemma_two_pow_64();
            }
            p = p * 2;
            k = k + 1;
        }
        let q: u128 = (n as u128) / p;
        let r: u128 = (n as u128) % p;
        let rounded: u128 = if 2 * r > p || (2 * r == p && q % 2 == 1) {
            q + 1
        } else {
            q
        };
        assert(rounded * p <= 0x1_0000_0000_0000_0000 * 2048) by (nonlinear_arith)
            requires
                rounded <= q + 1,
                q <= n,
                p <= 2048,
                n < 0x1_0000_0000_0000_0000,
        ;
        rounded * p
    }
}

/// The amount of bytes in human units, as `amount_text` describes it.
pub fn format_amount(bytes: u64) -> (r: String)
    ensures
        r@ == amount_text(bytes as nat),
{
    let m = f64_nearest_u64(bytes);
    let (d, unit): (u128, &str) = if bytes >= 1073741824 {
        (1073741824, "GB")
    } else if bytes >= 1048576 {
        (1048576, "MB")
    } else if bytes >= 1024 {
        (1024, "KB")
    } else {
        (1, "Bytes")
    };
    proof {
        lemma_f64_nearest_bound(bytes as nat);
    }
    let a: u128 = m * 100;
    let q: u128 = a / d;
    let rem: u128 = a % d;
    let h: u128 = if 2 * rem > d || (2 * rem == d && q % 2 == 1) {
        q + 1
    } else {
        q
    };
    let mut out = String::new();
    push_decimal(&mut out, h / 100);
    push_char(&mut out, '.');
    push_char(&mut out, digit_to_char(((h % 100) / 10) as u8));
    push_char(&mut out, digit_to_char((h % 10) as u8));
    push_str(&mut out, " ");
    push_str(&mut out, unit);
    proof {
        assert(" "@ == seq![' ']) by {
            reveal_strlit(" ");
        }
        assert(out@ =~= amount_text(bytes as nat));
    }
    out
}

/// The `f64` nearest to a 64-bit number is at most `2^64`.
proof fn lemma_f64_nearest_bound(n: nat)
    requires
        n < 0x1_0000_0000_0000_0000,
    ensures
        f64_nearest(n) <= 0x1_0000_0000_0000_0000,
{
    if bit_length(n) > 53 {
        lemma_two_pow_64();
        lemma_bit_length_bound(n, 64);
        let s = (bit_length(n) - 53) as nat;
        let p = two_pow(s);
        lemma_two_pow_monotone(s, 11);
        lemma_two_pow_monotone(0, s);
        let q = n / p;
        assert(div_round_even(n, p) <= q + 1);
        assert(f64_nearest(n) == div_round_even(n, p) * p);
        assert(q * p <= n) by (nonlinear_arith)
            requires
                q == n / p,
                p >= 1,
        ;
        assert((q + 1) * p <= n + p) by (nonlinear_arith)
            requires
                q * p <= n,
        ;
        assert(div_round_even(n, p) * p <= (q + 1) * p) by (nonlinear_arith)
            requires
                div_round_even(n, p) <= q + 1,
        ;
        // n + p may pass 2^64 only by rounding to it exactly; p divides 2^64
        assert(f64_nearest(n) <= n + p);
        assert(f64_nearest(n) % p == 0) by (nonlinear_arith)
            requires
                f64_nearest(n) == div_round_even(n, p) * p,
                p >= 1,
        ;
        lemma_multiple_of_pow_bound(n, p, s, f64_nearest(n));
    }
}

/// A multiple of `2^s` (`s <= 11`) that exceeds a number below `2^64` by
/// at most `2^s` is at most `2^64`.
proof fn lemma_multiple_of_pow_bound(n: nat, p: nat, s: nat, x: nat)
    requires
        n < 0x1_0000_0000_0000_0000,
        p == two_pow(s),
        s <= 11,
        x <= n + p,
        x % p == 0,
    ensures
        x <= 0x1_0000_0000_0000_0000,
{
    lemma_two_pow_64();
    lemma_two_pow_monotone(s, 11);
    lemma_two_pow_monotone(0, s);
    lemma_pow_divides_64(s);
    let big: nat = 0x1_0000_0000_0000_0000;
    if x > big {
        // both x and 2^64 are multiples of p, so x >= 2^64 + p > n + p
        assert(big % p == 0);
        assert(x >= big + p) by (nonlinear_arith)
            requires
                x % p == 0,
                big % p == 0,
                x > big,
                p >= 1,
        ;
    }
}

/// `2^s` divides `2^64` for `s <= 64`.
proof fn lemma_pow_divides_64(s: nat)
    requires
        s <= 64,
    ensures
        0x1_0000_0000_0000_0000nat % two_pow(s) == 0,
{
    lemma_two_pow_64();
    lemma_two_pow_split(s, (64 - s) as nat);
    lemma_two_pow_monotone(0, s);
    lemma_two_pow_monotone(0, (64 - s) as nat);
    let a = two_pow(s);
    let b = two_pow((64 - s) as nat);
    assert((a * b) % a == 0) by (nonlinear_arith)
        requires
            a >= 1,
    ;
}

/// `2^(a+b) == 2^a * 2^b`.
proof fn lemma_two_pow_split(a: nat, b: nat)
    ensures
        two_pow(a + b) == two_pow(a) * two_pow(b),
    decreases a,
{
    if a > 0 {
        let a1 = (a - 1) as nat;
        lemma_two_pow_split(a1, b);
        assert(two_pow(a + b) == 2 * two_pow(a1 + b));
        let x = two_pow(a1);
        let y = two_pow(b);
        assert(two_pow(a) == 2 * x);
        assert((2 * x) * y == 2 * (x * y)) by (nonlinear_arith);
    } else {
        assert(two_pow(0) == 1);
        assert(1 * two_pow(b) == two_pow(b));
    }
}

/// Bytes seen per protocol, kept in the order in which the protocols were
/// first seen.
///
/// The totals are a `Vec` whose protocol names stay distinct, not a
/// `HashMap`: Verus proves nothing of a `HashMap` keyed by `String`, so
/// what `add_data` does to a total could not be stated over it. Its
/// iteration order was unspecified; first-seen order is one such order.
pub struct TrafficMetrics {
    data: Vec<(String, u64)>,
}

/// Whether a protocol has a total.
pub open spec fn has_protocol(entries: Seq<(Seq<char>, u64)>, protocol: Seq<char>) -> bool {
    exists|i: int| 0 <= i < entries.len() && #[trigger] entries[i].0 == protocol
}

/// The position of a protocol's total (where there is one).
pub open spec fn protocol_index(entries: Seq<(Seq<char>, u64)>, protocol: Seq<char>) -> int {
    choose|i: int| 0 <= i < entries.len() && #[trigger] entries[i].0 == protocol
}

/// The bytes counted for `protocol`; zero for a protocol never seen.
pub open spec fn total_of(entries: Seq<(Seq<char>, u64)>, protocol: Seq<char>) -> nat {
    if has_protocol(entries, protocol) {
        entries[protocol_index(entries, protocol)].1 as nat
    } else {
        0
    }
}

/// Each protocol holds at most one total.
pub open spec fn distinct_protocols(entries: Seq<(Seq<char>, u64)>) -> bool {
    forall|i: int, j: int|
        0 <= i < entries.len() && 0 <= j < entries.len() && i != j ==> #[trigger] entries[i].0
            != #[trigger] entries[j].0
}

/// For every protocol with a total, "<protocol>: <amount of its total>"
/// occurs in the text of the totals.
pub proof fn lemma_metrics_text_shows_total(entries: Seq<(Seq<char>, u64)>, protocol: Seq<char>)
    requires
        has_protocol(entries, protocol),
    ensures
        ({
            let shown = protocol + ": "@ + amount_text(total_of(entries, protocol));
            exists|o: int|
                0 <= o && o + shown.len() <= metrics_text(entries).len()
                    && #[trigger] metrics_text(entries).subrange(o, o + shown.len()) == shown
        }),
{
    let k = protocol_index(entries, protocol);
    lemma_metrics_text_has_entry(entries, k);
    let t = metrics_text(entries);
    let shown = protocol + ": "@ + amount_text(total_of(entries, protocol));
    assert(entry_text(entries[k]) == shown);
    let o = choose|o: int|
        0 <= o && o + entry_text(entries[k]).len() <= t.len() && #[trigger] t.subrange(
            o,
            o + entry_text(entries[k]).len(),
        ) == entries[k].0 + ": "@ + amount_text(entries[k].1 as nat);
    assert(t.subrange(o, o + shown.len()) == shown);
}

/// The totals after `bytes` more were seen for `protocol`.
pub open spec fn metrics_after_add(
    entries: Seq<(Seq<char>, u64)>,
    protocol: Seq<char>,
    bytes: u64,
) -> Seq<(Seq<char>, u64)> {
    if has_protocol(entries, protocol) {
        let i = protocol_index(entries, protocol);
        entries.update(i, (protocol, (entries[i].1 + bytes) as u64))
    } else {
        entries.push((protocol, bytes))
    }
}

/// Whether `bytes` more can be counted for `protocol` without passing
/// `u64::MAX`.
pub open spec fn has_room(entries: Seq<(Seq<char>, u64)>, protocol: Seq<char>, bytes: nat) -> bool {
    total_of(entries, protocol) + bytes <= u64::MAX
}

/// Counting bytes for one protocol keeps the protocols distinct, adds
/// exactly those bytes to that protocol's total and leaves every other
/// total as it was.
pub proof fn lemma_add_data_totals(m: Seq<(Seq<char>, u64)>, p: Seq<char>, n: u64, q: Seq<char>)
    requires
        distinct_protocols(m),
        has_room(m, p, n as nat),
    ensures
        distinct_protocols(metrics_after_add(m, p, n)),
        total_of(metrics_after_add(m, p, n), q) == if q == p {
            total_of(m, p) + n as nat
        } else {
            total_of(m, q)
        },
{
    let nv = metrics_after_add(m, p, n);
    if has_protocol(m, p) {
        let i = protocol_index(m, p);
        assert(nv == m.update(i, (p, (m[i].1 + n) as u64)));
        assert forall|a: int, b: int|
            0 <= a < nv.len() && 0 <= b < nv.len() && a != b implies #[trigger] nv[a].0
            != #[trigger] nv[b].0 by {
            assert(m[a].0 != m[b].0);
        }
        if q == p {
            assert(nv[i].0 == p);
            assert(has_protocol(nv, p));
            let j = protocol_index(nv, p);
            assert(j == i) by {
                if j != i {
                    assert(nv[j].0 != nv[i].0);
                }
            }
        } else {
            if has_protocol(m, q) {
                let k = protocol_index(m, q);
                assert(nv[k].0 == q);
                assert(has_protocol(nv, q));
                let j = protocol_index(nv, q);
                assert(j == k) by {
                    if j != k {
                        assert(nv[j].0 != nv[k].0);
                    }
                }
            } else {
                assert(!has_protocol(nv, q)) by {
                    if has_protocol(nv, q) {
                        let j = protocol_index(nv, q);
                        assert(m[j].0 == q);
                    }
                }
            }
        }
    } else {
        assert(nv == m.push((p, n)));
        assert forall|a: int, b: int|
            0 <= a < nv.len() && 0 <= b < nv.len() && a != b implies #[trigger] nv[a].0
            != #[trigger] nv[b].0 by {
            if a < m.len() && b < m.len() {
                assert(m[a].0 != m[b].0);
            } else if a < m.len() {
                assert(m[a].0 != p);
            } else {
                assert(m[b].0 != p);
            }
        }
        if q == p {
            assert(nv[m.len() as int].0 == p);
            assert(has_protocol(nv, p));
            let j = protocol_index(nv, p);
            assert(j == m.len()) by {
                if j < m.len() {
                    assert(m[j].0 == p);
                }
            }
        } else {
            if has_protocol(m, q) {
                let k = protocol_index(m, q);
                assert(nv[k].0 == q);
                assert(has_protocol(nv, q));
                let j = protocol_index(nv, q);
                assert(j == k) by {
                    if j != k {
                        assert(nv[j].0 != nv[k].0);
                    }
                }
            } else {
                assert(!has_protocol(nv, q)) by {
                    if has_protocol(nv, q) {
                        let j = protocol_index(nv, q);
                        if j < m.len() {
                            assert(m[j].0 == q);
                        }
                    }
                }
            }
        }
    }
}

/// Counting `a` bytes and then `b` bytes for a protocol gives the same
/// totals, in the same order, as counting `a + b` bytes at once.
pub proof fn lemma_add_data_additive(m: Seq<(Seq<char>, u64)>, p: Seq<char>, a: u64, b: u64)
    requires
        distinct_protocols(m),
        has_room(m, p, a as nat + b as nat),
    ensures
        metrics_after_add(metrics_after_add(m, p, a), p, b) == metrics_after_add(
            m,
            p,
            (a + b) as u64,
        ),
{
    lemma_add_data_totals(m, p, a, p);
    let m1 = metrics_after_add(m, p, a);
    assert(has_protocol(m1, p)) by {
        if has_protocol(m, p) {
            assert(m1[protocol_index(m, p)].0 == p);
        } else {
            assert(m1[m.len() as int].0 == p);
        }
    }
    let j = protocol_index(m1, p);
    if has_protocol(m, p) {
        let i = protocol_index(m, p);
        assert(j == i) by {
            if j != i {
                assert(m1[j] == m[j]);
                assert(m[j].0 != m[i].0);
            }
        }
        assert(metrics_after_add(m1, p, b) =~= metrics_after_add(m, p, (a + b) as u64));
    } else {
        assert(j == m.len()) by {
            if j < m.len() {
                assert(m1[j] == m[j]);
            }
        }
        assert(metrics_after_add(m1, p, b) =~= metrics_after_add(m, p, (a + b) as u64));
    }
}

/// The unit that an amount is shown in is the largest one it reaches: the
/// amount is at least one unit (but for zero bytes) and, below gigabytes,
/// less than 1024 units.
pub proof fn lemma_unit_fits(bytes: nat)
    ensures
        bytes >= 1 ==> bytes >= unit_divisor(bytes),
        unit_divisor(bytes) < 1073741824 ==> bytes < 1024 * unit_divisor(bytes),
{
}

impl View for TrafficMetrics {
    type V = Seq<(Seq<char>, u64)>;

    /// The totals: protocol and bytes, in the order first seen.
    closed spec fn view(&self) -> Seq<(Seq<char>, u64)> {
        self.data@.map_values(|e: (String, u64)| (e.0@, e.1))
    }
}

impl Default for TrafficMetrics {
    fn default() -> (r: TrafficMetrics)
        ensures
            r.wf(),
            r@ == Seq::<(Seq<char>, u64)>::empty(),
    {
        TrafficMetrics::new()
    }
}

impl TrafficMetrics {
    /// Each protocol holds at most one total.
    pub open spec fn wf(&self) -> bool {
        distinct_protocols(self@)
    }

    /// Metrics with no totals.
    pub fn new() -> (r: TrafficMetrics)
        ensures
            r.wf(),
            r@ == Seq::<(Seq<char>, u64)>::empty(),
    {
        let r = TrafficMetrics { data: Vec::new() };
        assert(r@ =~= Seq::<(Seq<char>, u64)>::empty());
        r
    }

    /// The bytes counted for `protocol`.
    pub fn total(&self, protocol: &str) -> (r: u64)
        requires
            self.wf(),
        ensures
            r == total_of(self@, protocol@),
    {
        match self.find(protocol) {
            Some(i) => self.data[i].1,
            None => 0,
        }
    }

    /// Whether `bytes` more can be counted for `protocol`.
    pub fn can_add(&self, protocol: &str, bytes: u64) -> (r: bool)
        requires
            self.wf(),
        ensures
            r == has_room(self@, protocol@, bytes as nat),
    {
        let t = self.total(protocol);
        t <= u64::MAX - bytes
    }

    /// The position of `protocol`'s total.
    fn find(&self, protocol: &str) -> (r: Option<usize>)
        requires
            self.wf(),
        ensures
            match r {
                Some(i) => i < self@.len() && has_protocol(self@, protocol@) && protocol_index(
                    self@,
                    protocol@,
                ) == i && self@[i as int].0 == protocol@,
                None => !has_protocol(self@, protocol@),
            },
    {
        let key = string_of(protocol);
        let mut i: usize = 0;
        while i < self.data.len()
            invariant
                i <= self.data.len(),
                key@ == protocol@,
                self.wf(),
                forall|k: int| 0 <= k < i ==> #[trigger] self@[k].0 != protocol@,
            decreases self.data.len() - i,
        {
            if self.data[i].0 == key {
                assert(self@[i as int].0 == protocol@);
                assert(has_protocol(self@, protocol@));
                let ghost j = protocol_index(self@, protocol@);
                assert(j == i) by {
                    if j != i {
                        assert(self@[j].0 != self@[i as int].0);
                    }
                }
                return Some(i);
            }
            assert(self@[i as int].0 != protocol@);
            i = i + 1;
        }
        None
    }

    /// Counts `bytes` more for `protocol`.
    pub fn add_data(&mut self, protocol: &str, bytes: u64)
        requires
            old(self).wf(),
            has_room(old(self)@, protocol@, bytes as nat),
        ensures
            final(self).wf(),
            final(self)@ == metrics_after_add(old(self)@, protocol@, bytes),
    {
        match self.find(protocol) {
            Some(i) => {
                let key = string_of(protocol);
                let total = self.data[i].1 + bytes;
                self.data.set(i, (key, total));
                proof {
                    let nv = old(self)@.update(i as int, (protocol@, total));
                    assert(self@ =~= nv);
                    assert forall|a: int, b: int|
                        0 <= a < nv.len() && 0 <= b < nv.len() && a != b implies #[trigger] nv[a].0
                        != #[trigger] nv[b].0 by {
                        assert(old(self)@[a].0 != old(self)@[b].0);
                    }
                }
            },
            None => {
                self.data.push((string_of(protocol), bytes));
                proof {
                    let nv = old(self)@.push((protocol@, bytes));
                    assert(self@ =~= nv);
                    assert forall|a: int, b: int|
                        0 <= a < nv.len() && 0 <= b < nv.len() && a != b implies #[trigger] nv[a].0
                        != #[trigger] nv[b].0 by {
                        if a < old(self)@.len() && b < old(self)@.len() {
                            assert(old(self)@[a].0 != old(self)@[b].0);
                        } else if a < old(self)@.len() {
                            assert(old(self)@[a].0 != protocol@);
                        } else {
                            assert(old(self)@[b].0 != protocol@);
                        }
                    }
                }
            },
        }
    }

    /// The totals as text: "TCP: 1.50 KB, UDP: 300.00 Bytes".
    pub fn formatted(&self) -> (r: String)
        ensures
            r@ == metrics_text(self@),
    {
        let mut out = String::new();
        let mut i: usize = 0;
        while i < self.data.len()
            invariant
                i <= self.data.len(),
                out@ == metrics_text(self@.take(i as int)),
            decreases self.data.len() - i,
        {
            let ghost before = out@;
            if i > 0 {
                push_str(&mut out, ", ");
            }
            push_str(&mut out, self.data[i].0.as_str());
            push_str(&mut out, ": ");
            let amount = format_amount(self.data[i].1);
            push_str(&mut out, amount.as_str());
            proof {
                let t = self@.take(i + 1);
                assert(t.drop_last() =~= self@.take(i as int));
                assert(t.last() == self@[i as int]);
                if i == 0 {
                    assert(out@ =~= entry_text(t[0]));
                } else {
                    assert(out@ =~= metrics_text(t.drop_last()) + ", "@ + entry_text(t.last()));
                }
            }
            i = i + 1;
        }
        assert(self@.take(self.data.len() as int) =~= self@);
        out
    }
}

} // verus!
