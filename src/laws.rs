//! Properties that relate the parser and the simulator, proved once for all
//! inputs.

use vstd::prelude::*;
use crate::parse::{
    all_digits, digit_of, digits_value, find_from, find_sign_from, is_digit, parse_expr,
    parse_token, parse_tokens, parse_unsigned, shortcut, without_plus, ParseError,
};
use crate::roll::{Exclude, Roll};
use crate::simulate::{detail, dropped, first_at, mark_index, result_of, sum, valid_draws};
use crate::text::{digit_char, int_text, nat_text};

verus! {

proof fn lemma_digit_char(k: nat)
    requires
        k < 10,
    ensures
        is_digit(digit_char(k)),
        digit_of(digit_char(k)) == k,
{
}

proof fn lemma_nat_text(n: nat)
    ensures
        all_digits(nat_text(n)),
        digits_value(nat_text(n)) == n,
    decreases n,
{
    if n < 10 {
        lemma_digit_char(n);
        assert(nat_text(n).drop_last() =~= Seq::<char>::empty());
        assert(digits_value(nat_text(n)) == digits_value(Seq::<char>::empty()) * 10 + digit_of(
            digit_char(n),
        ));
    } else {
        lemma_nat_text(n / 10);
        lemma_digit_char(n % 10);
        let s = nat_text(n);
        assert(s.drop_last() =~= nat_text(n / 10));
        assert(s.last() == digit_char(n % 10));
        assert(digits_value(s) == digits_value(nat_text(n / 10)) * 10 + digit_of(s.last()));
        assert((n / 10) * 10 + n % 10 == n);
        assert forall|i: int| 0 <= i < s.len() implies is_digit(#[trigger] s[i]) by {
            if i < s.len() - 1 {
                assert(s[i] == nat_text(n / 10)[i]);
            }
        }
    }
}

proof fn lemma_parse_digits(n: nat)
    requires
        n <= u32::MAX,
    ensures
        parse_unsigned(nat_text(n)) == Some(n as u32),
{
    lemma_nat_text(n);
    assert(is_digit(nat_text(n)[0]));
    assert(without_plus(nat_text(n)) == nat_text(n));
}

proof fn lemma_find_at(s: Seq<char>, c: char, i: int, k: int)
    requires
        0 <= i <= k < s.len(),
        s[k] == c,
        forall|j: int| i <= j < k ==> s[j] != c,
    ensures
        find_from(s, c, i) == Some(k),
    decreases k - i,
{
    if i < k {
        lemma_find_at(s, c, i + 1, k);
    }
}

proof fn lemma_no_sign(s: Seq<char>, i: int)
    requires
        0 <= i,
        forall|j: int| i <= j < s.len() ==> is_digit(#[trigger] s[j]),
    ensures
        find_sign_from(s, i) is None,
    decreases s.len() - i,
{
    if i < s.len() {
        lemma_no_sign(s, i + 1);
    }
}

/// A token made of a count `n >= 1`, a `d` and a die size `m >= 1`, both in
/// decimal, is no shortcut and parses to `n` dice of `m` sides with no bonus
/// and no dropped die.
pub proof fn lemma_count_d_size(n: u32, m: u32)
    requires
        n >= 1,
        m >= 1,
    ensures
        parse_expr(nat_text(n as nat) + seq!['d'] + nat_text(m as nat)) == Ok::<
            Roll,
            ParseError,
        >(Roll { num: n, die: m, bonus: 0, exclude: Exclude::KeepAll }),
        parse_token(nat_text(n as nat) + seq!['d'] + nat_text(m as nat)) == Ok::<
            Seq<Roll>,
            ParseError,
        >(seq![Roll { num: n, die: m, bonus: 0, exclude: Exclude::KeepAll }]),
{
    let a = nat_text(n as nat);
    let b = nat_text(m as nat);
    let s = a + seq!['d'] + b;
    let l = a.len() as int;
    lemma_nat_text(n as nat);
    lemma_nat_text(m as nat);
    lemma_parse_digits(n as nat);
    lemma_parse_digits(m as nat);
    assert forall|j: int| 0 <= j < l implies s[j] != 'd' by {
        assert(s[j] == a[j]);
        assert(is_digit(a[j]));
    }
    assert(s[l] == 'd');
    lemma_find_at(s, 'd', 0, l);
    assert(s.subrange(0, l) =~= a);
    assert(s[l + 1] == b[0]);
    assert(is_digit(b[0]));
    assert forall|j: int| l + 1 <= j < s.len() implies is_digit(#[trigger] s[j]) by {
        assert(s[j] == b[j - l - 1]);
    }
    lemma_no_sign(s, l + 1);
    assert(s.subrange(l + 1, s.len() as int) =~= b);
    assert(is_digit(s[0]));
    lemma_not_shortcut(s);
}

/// A token that starts with a digit is no shortcut.
proof fn lemma_not_shortcut(s: Seq<char>)
    requires
        s.len() > 0,
        is_digit(s[0]),
    ensures
        shortcut(s) is None,
{
    reveal_strlit("adv");
    reveal_strlit("advantage");
    reveal_strlit("dis");
    reveal_strlit("disadvantage");
    reveal_strlit("chaos");
    reveal_strlit("chaos_bolt");
    reveal_strlit("stats");
    reveal_strlit("char");
    reveal_strlit("character");
    reveal_strlit("tiny-objects");
    reveal_strlit("tiny");
    reveal_strlit("animate-objects");
}

/// Parsing a list of tokens keeps their order: the rolls of `a + b` are the
/// rolls of `a` followed by those of `b`, and an error in `a` comes first.
pub proof fn lemma_parse_tokens_append(a: Seq<Seq<char>>, b: Seq<Seq<char>>)
    ensures
        parse_tokens(a + b) == (match parse_tokens(a) {
            Err(e) => Err(e),
            Ok(x) => match parse_tokens(b) {
                Err(e) => Err(e),
                Ok(y) => Ok(x + y),
            },
        }),
    decreases b.len(),
{
    if b.len() == 0 {
        assert(a + b =~= a);
        assert(parse_tokens(b) == Ok::<Seq<Roll>, ParseError>(Seq::empty()));
        if let Ok(x) = parse_tokens(a) {
            assert(x + Seq::<Roll>::empty() =~= x);
        }
    } else {
        lemma_parse_tokens_append(a, b.drop_last());
        assert((a + b).drop_last() =~= a + b.drop_last());
        assert((a + b).last() == b.last());
        if let Ok(x) = parse_tokens(a) {
            if let Ok(y) = parse_tokens(b.drop_last()) {
                if let Ok(z) = parse_token(b.last()) {
                    assert(x + y + z =~= x + (y + z));
                }
            }
        }
    }
}

proof fn lemma_dropped_low(d: Seq<u32>)
    requires
        d.len() > 0,
    ensures
        exists|i: int| 0 <= i < d.len() && d[i] == dropped(Exclude::Low, d),
        forall|i: int| 0 <= i < d.len() ==> dropped(Exclude::Low, d) <= #[trigger] d[i],
    decreases d.len(),
{
    let p = d.drop_last();
    if p.len() > 0 {
        lemma_dropped_low(p);
        let i = choose|i: int| 0 <= i < p.len() && p[i] == dropped(Exclude::Low, p);
        assert(d[i] == p[i]);
        if d.last() < dropped(Exclude::Low, p) {
            assert(d[d.len() - 1] == dropped(Exclude::Low, d));
        } else {
            assert(d[i] == dropped(Exclude::Low, d));
        }
        assert forall|j: int| 0 <= j < d.len() implies dropped(Exclude::Low, d) <= #[trigger] d[j] by {
            if j < p.len() {
                assert(d[j] == p[j]);
            }
        }
    } else {
        assert(d[0] == d.last());
        assert(p =~= Seq::<u32>::empty());
        assert(dropped(Exclude::Low, p) == u32::MAX);
        assert(d[0] == dropped(Exclude::Low, d));
    }
}

proof fn lemma_dropped_high(d: Seq<u32>)
    requires
        d.len() > 0,
    ensures
        exists|i: int| 0 <= i < d.len() && d[i] == dropped(Exclude::High, d),
        forall|i: int| 0 <= i < d.len() ==> #[trigger] d[i] <= dropped(Exclude::High, d),
    decreases d.len(),
{
    let p = d.drop_last();
    if p.len() > 0 {
        lemma_dropped_high(p);
        let i = choose|i: int| 0 <= i < p.len() && p[i] == dropped(Exclude::High, p);
        assert(d[i] == p[i]);
        if dropped(Exclude::High, p) < d.last() {
            assert(d[d.len() - 1] == dropped(Exclude::High, d));
        } else {
            assert(d[i] == dropped(Exclude::High, d));
        }
        assert forall|j: int| 0 <= j < d.len() implies #[trigger] d[j] <= dropped(Exclude::High, d) by {
            if j < p.len() {
                assert(d[j] == p[j]);
            }
        }
    } else {
        assert(d[0] == d.last());
        assert(p =~= Seq::<u32>::empty());
        assert(dropped(Exclude::High, p) == 0);
        assert(d[0] == dropped(Exclude::High, d));
    }
}

proof fn lemma_first_at_found(d: Seq<u32>, x: u32, i: int, k: int)
    requires
        0 <= i <= k < d.len(),
        d[k] == x,
    ensures
        first_at(d, x, i) matches Some(j) && i <= j <= k && d[j] == x && forall|t: int|
            i <= t < j ==> d[t] != x,
    decreases k - i,
{
    if d[i] != x {
        lemma_first_at_found(d, x, i + 1, k);
    }
}

/// In a roll of two or more dice that drops one, exactly one draw is marked:
/// the first that equals the lowest (or highest) draw; and the result is the
/// sum of the draws plus the bonus minus that draw.
pub proof fn lemma_one_dropped(r: Roll, d: Seq<u32>)
    requires
        r.num > 1,
        r.exclude != Exclude::KeepAll,
        valid_draws(r, d),
    ensures
        0 <= mark_index(r.exclude, d) < d.len(),
        d[mark_index(r.exclude, d)] == dropped(r.exclude, d),
        forall|t: int| 0 <= t < mark_index(r.exclude, d) ==> d[t] != dropped(r.exclude, d),
        r.exclude == Exclude::Low ==> forall|i: int|
            0 <= i < d.len() ==> d[mark_index(r.exclude, d)] <= #[trigger] d[i],
        r.exclude == Exclude::High ==> forall|i: int|
            0 <= i < d.len() ==> #[trigger] d[i] <= d[mark_index(r.exclude, d)],
        result_of(r, d) == Some(sum(d) + r.bonus - d[mark_index(r.exclude, d)]),
{
    let x = dropped(r.exclude, d);
    if r.exclude == Exclude::Low {
        lemma_dropped_low(d);
    } else {
        lemma_dropped_high(d);
    }
    let k = choose|i: int| 0 <= i < d.len() && d[i] == x;
    lemma_first_at_found(d, x, 0, k);
}

/// A roll of one die gives that die plus the bonus, written as a plain
/// integer with no draw in parentheses.
pub proof fn lemma_single_die(r: Roll, d: Seq<u32>)
    requires
        r.num == 1,
        valid_draws(r, d),
    ensures
        result_of(r, d) == Some(d[0] + r.bonus),
        detail(r, d).0 == int_text(d[0] + r.bonus),
        forall|i: int| 0 <= i < detail(r, d).0.len() ==> #[trigger] detail(r, d).0[i] != '(',
{
    let v = d[0] + r.bonus;
    let t = int_text(v);
    if v < 0 {
        lemma_nat_text((-v) as nat);
        assert forall|i: int| 0 <= i < t.len() implies #[trigger] t[i] != '(' by {
            if i > 0 {
                assert(t[i] == nat_text((-v) as nat)[i - 1]);
                assert(is_digit(nat_text((-v) as nat)[i - 1]));
            }
        }
    } else {
        lemma_nat_text(v as nat);
        assert forall|i: int| 0 <= i < t.len() implies #[trigger] t[i] != '(' by {
            assert(is_digit(nat_text(v as nat)[i]));
        }
    }
}

/// A roll of no dice gives no result and says so.
pub proof fn lemma_no_dice(r: Roll, d: Seq<u32>)
    requires
        r.num == 0,
    ensures
        result_of(r, d) is None,
        detail(r, d).0 == "no dice rolled"@,
{
}

} // verus!
