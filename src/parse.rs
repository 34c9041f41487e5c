//! Parsing of dice expressions (`4d6`, `d20+5`, `-3`) and of the named
//! shortcuts (`adv`, `stats`, ...) into roll requests.

use vstd::prelude::*;
use crate::roll::{Exclude, Roll};

verus! {

/// Why a token is not a dice expression.
#[derive(PartialEq, Eq, Structural, Clone, Copy, Debug)]
pub enum ParseError {
    /// The token has no `d` and is not a signed integer.
    NoDieSpecified,
    /// The die size is not a non-negative integer.
    InvalidDieFormat,
    /// The text from the sign on is not a signed integer.
    InvalidModifierFormat,
}

/// The message shown for each error.
pub open spec fn message_text(e: ParseError) -> Seq<char> {
    match e {
        ParseError::NoDieSpecified => "invalid roll format: no die specified"@,
        ParseError::InvalidDieFormat => "invalid roll format: die must be an integer"@,
        ParseError::InvalidModifierFormat => "invalid roll format: modifier must be an integer"@,
    }
}

impl ParseError {
    /// The message shown for this error.
    pub fn message(&self) -> (r: String)
        ensures
            r@ == message_text(*self),
    {
        match self {
            ParseError::NoDieSpecified => String::from_str("invalid roll format: no die specified"),
            ParseError::InvalidDieFormat => String::from_str(
                "invalid roll format: die must be an integer",
            ),
            ParseError::InvalidModifierFormat => String::from_str(
                "invalid roll format: modifier must be an integer",
            ),
        }
    }
}

pub open spec fn is_digit(c: char) -> bool {
    '0' <= c && c <= '9'
}

pub open spec fn digit_of(c: char) -> nat {
    if is_digit(c) {
        (c as int - '0' as int) as nat
    } else {
        0
    }
}

/// The number that a run of decimal digits denotes.
pub open spec fn digits_value(s: Seq<char>) -> nat
    decreases s.len(),
{
    if s.len() == 0 {
        0
    } else {
        digits_value(s.drop_last()) * 10 + digit_of(s.last())
    }
}

/// A non-empty run of decimal digits.
pub open spec fn all_digits(s: Seq<char>) -> bool {
    s.len() > 0 && forall|i: int| 0 <= i < s.len() ==> is_digit(#[trigger] s[i])
}

/// `s` without one leading `+`, if it has one.
pub open spec fn without_plus(s: Seq<char>) -> Seq<char> {
    if s.len() > 0 && s[0] == '+' {
        s.drop_first()
    } else {
        s
    }
}

/// A `u32` written in decimal, with an optional leading `+`.
pub open spec fn parse_unsigned(s: Seq<char>) -> Option<u32> {
    let b = without_plus(s);
    if all_digits(b) && digits_value(b) <= u32::MAX {
        Some(digits_value(b) as u32)
    } else {
        None
    }
}

/// An `i32` written in decimal, with an optional leading `+` or `-`.
pub open spec fn parse_signed(s: Seq<char>) -> Option<i32> {
    if s.len() > 0 && s[0] == '-' {
        let b = s.drop_first();
        if all_digits(b) && digits_value(b) <= 0x8000_0000 {
            Some((-digits_value(b)) as i32)
        } else {
            None
        }
    } else {
        let b = without_plus(s);
        if all_digits(b) && digits_value(b) <= i32::MAX {
            Some(digits_value(b) as i32)
        } else {
            None
        }
    }
}

/// The first index at or after `i` that holds `c`.
pub open spec fn find_from(s: Seq<char>, c: char, i: int) -> Option<int>
    decreases s.len() - i,
{
    if i < 0 || i >= s.len() {
        None
    } else if s[i] == c {
        Some(i)
    } else {
        find_from(s, c, i + 1)
    }
}

/// The first index at or after `i` that holds `+` or `-`.
pub open spec fn find_sign_from(s: Seq<char>, i: int) -> Option<int>
    decreases s.len() - i,
{
    if i < 0 || i >= s.len() {
        None
    } else if s[i] == '+' || s[i] == '-' {
        Some(i)
    } else {
        find_sign_from(s, i + 1)
    }
}

/// The count before the `d` at index `k`: one when nothing stands there,
/// else the `u32` written there, if it is one.
pub open spec fn parse_count(s: Seq<char>, k: int) -> Option<u32> {
    if k == 0 {
        Some(1u32)
    } else {
        parse_unsigned(s.subrange(0, k))
    }
}

/// The roll that a dice expression denotes: `[count]d<die>[(+|-)bonus]`, or a
/// bare signed integer for a flat value. The token splits at its first `d`;
/// a missing count counts as one. The die size runs from just after that `d`
/// to the first `+` or `-`, and the bonus from that sign to the end.
/// A count that is present but not a `u32` is reported as
/// `InvalidDieFormat`, since it is part of the dice: that is the nearest of
/// the three errors.
pub open spec fn parse_expr(s: Seq<char>) -> Result<Roll, ParseError> {
    match find_from(s, 'd', 0) {
        None => match parse_signed(s) {
            Some(v) => Ok(Roll { num: 1, die: 0, bonus: v, exclude: Exclude::KeepAll }),
            None => Err(ParseError::NoDieSpecified),
        },
        Some(k) => match parse_count(s, k) {
            None => Err(ParseError::InvalidDieFormat),
            Some(num) => {
                let t = k + 1;
                match find_sign_from(s, t) {
                    Some(j) => match parse_signed(s.subrange(j, s.len() as int)) {
                        None => Err(ParseError::InvalidModifierFormat),
                        Some(b) => match parse_unsigned(s.subrange(t, j)) {
                            None => Err(ParseError::InvalidDieFormat),
                            Some(d) => Ok(Roll { num, die: d, bonus: b, exclude: Exclude::KeepAll }),
                        },
                    },
                    None => match parse_unsigned(s.subrange(t, s.len() as int)) {
                        None => Err(ParseError::InvalidDieFormat),
                        Some(d) => Ok(Roll { num, die: d, bonus: 0, exclude: Exclude::KeepAll }),
                    },
                }
            },
        },
    }
}

proof fn lemma_digits_prefix(s: Seq<char>, k: int)
    requires
        0 <= k <= s.len(),
    ensures
        digits_value(s.subrange(0, k)) <= digits_value(s),
    decreases s.len(),
{
    if k < s.len() {
        lemma_digits_prefix(s.drop_last(), k);
        assert(s.drop_last().subrange(0, k) =~= s.subrange(0, k));
    } else {
        assert(s.subrange(0, k) =~= s);
    }
}

/// The value of the digits in `s[lo..hi]` when they are all digits and the
/// value is at most `bound`.
fn digits_in(s: &Vec<char>, lo: usize, hi: usize, bound: u64) -> (r: Option<u64>)
    requires
        lo <= hi <= s@.len(),
        bound <= 0x1_0000_0000,
    ensures
        r == (if all_digits(s@.subrange(lo as int, hi as int)) && digits_value(
            s@.subrange(lo as int, hi as int),
        ) <= bound {
            Some(digits_value(s@.subrange(lo as int, hi as int)) as u64)
        } else {
            None::<u64>
        }),
{
    let ghost w = s@.subrange(lo as int, hi as int);
    if lo == hi {
        return None;
    }
    let mut acc: u64 = 0;
    let mut i: usize = lo;
    while i < hi
        invariant
            lo <= i <= hi <= s@.len(),
            bound <= 0x1_0000_0000,
            w == s@.subrange(lo as int, hi as int),
            acc as nat == digits_value(s@.subrange(lo as int, i as int)),
            acc <= bound,
            forall|j: int| lo <= j < i ==> is_digit(#[trigger] s@[j]),
        decreases hi - i,
    {
        let c = s[i];
        if !('0' <= c && c <= '9') {
            assert(w[i - lo] == c);
            return None;
        }
        let d = (c as u32 - '0' as u32) as u64;
        let ghost p = s@.subrange(lo as int, i as int + 1);
        assert(p.drop_last() =~= s@.subrange(lo as int, i as int));
        assert(p.last() == c);
        let next = acc * 10 + d;
        if next > bound {
            proof {
                if all_digits(w) {
                    assert(w.subrange(0, i - lo + 1) =~= p);
                    lemma_digits_prefix(w, i - lo + 1);
                }
            }
            return None;
        }
        acc = next;
        i = i + 1;
    }
    assert(s@.subrange(lo as int, i as int) =~= w);
    assert(all_digits(w));
    Some(acc)
}

/// `parse_unsigned` on `s[lo..hi]`.
fn unsigned_in(s: &Vec<char>, lo: usize, hi: usize) -> (r: Option<u32>)
    requires
        lo <= hi <= s@.len(),
    ensures
        r == parse_unsigned(s@.subrange(lo as int, hi as int)),
{
    let ghost w = s@.subrange(lo as int, hi as int);
    let start = if lo < hi && s[lo] == '+' { lo + 1 } else { lo };
    assert(without_plus(w) =~= s@.subrange(start as int, hi as int));
    match digits_in(s, start, hi, 0xFFFF_FFFF) {
        Some(v) => Some(v as u32),
        None => None,
    }
}

/// `parse_signed` on `s[lo..hi]`.
fn signed_in(s: &Vec<char>, lo: usize, hi: usize) -> (r: Option<i32>)
    requires
        lo <= hi <= s@.len(),
    ensures
        r == parse_signed(s@.subrange(lo as int, hi as int)),
{
    let ghost w = s@.subrange(lo as int, hi as int);
    if lo < hi && s[lo] == '-' {
        assert(w.drop_first() =~= s@.subrange(lo + 1, hi as int));
        match digits_in(s, lo + 1, hi, 0x8000_0000) {
            Some(v) => Some((0 - v as i64) as i32),
            None => None,
        }
    } else {
        let start = if lo < hi && s[lo] == '+' { lo + 1 } else { lo };
        assert(without_plus(w) =~= s@.subrange(start as int, hi as int));
        match digits_in(s, start, hi, 0x7FFF_FFFF) {
            Some(v) => Some(v as i32),
            None => None,
        }
    }
}


fn find_in(s: &Vec<char>, c: char, from: usize) -> (r: Option<usize>)
    requires
        from <= s@.len(),
    ensures
        r matches Some(j) ==> find_from(s@, c, from as int) == Some(j as int) && j < s@.len(),
        r is None ==> find_from(s@, c, from as int) is None,
{
    let mut i: usize = from;
    while i < s.len()
        invariant
            from <= i <= s@.len(),
            find_from(s@, c, from as int) == find_from(s@, c, i as int),
        decreases s@.len() - i,
    {
        if s[i] == c {
            return Some(i);
        }
        i = i + 1;
    }
    None
}

fn find_sign_in(s: &Vec<char>, from: usize) -> (r: Option<usize>)
    requires
        from <= s@.len(),
    ensures
        r matches Some(j) ==> find_sign_from(s@, from as int) == Some(j as int),
        r is None ==> find_sign_from(s@, from as int) is None,
{
    let mut i: usize = from;
    while i < s.len()
        invariant
            from <= i <= s@.len(),
            find_sign_from(s@, from as int) == find_sign_from(s@, i as int),
        decreases s@.len() - i,
    {
        if s[i] == '+' || s[i] == '-' {
            return Some(i);
        }
        i = i + 1;
    }
    None
}

/// The characters of `s`, in order.
fn chars_of(s: &str) -> (r: Vec<char>)
    ensures
        r@ == s@,
{
    let n = s.unicode_len();
    let mut r: Vec<char> = Vec::new();
    let mut i: usize = 0;
    while i < n
        invariant
            n == s@.len(),
            i <= n,
            r@ == s@.subrange(0, i as int),
        decreases n - i,
    {
        r.push(s.get_char(i));
        i = i + 1;
        assert(r@ =~= s@.subrange(0, i as int));
    }
    assert(r@ =~= s@);
    r
}

/// Parses one dice expression: `[count]d<die>[(+|-)bonus]`, or a bare signed
/// integer for a flat value.
pub fn parse_arg(arg: &str) -> (r: Result<Roll, ParseError>)
    ensures
        r == parse_expr(arg@),
{
    let s = chars_of(arg);
    let n = s.len();
    match find_in(&s, 'd', 0) {
        None => match signed_in(&s, 0, n) {
            Some(v) => {
                assert(s@.subrange(0, n as int) =~= s@);
                Ok(Roll { num: 1, die: 0, bonus: v, exclude: Exclude::KeepAll })
            },
            None => {
                assert(s@.subrange(0, n as int) =~= s@);
                Err(ParseError::NoDieSpecified)
            },
        },
        Some(k) => {
            let count = if k == 0 {
                Some(1u32)
            } else {
                unsigned_in(&s, 0, k)
            };
            match count {
                None => Err(ParseError::InvalidDieFormat),
                Some(num) => {
                    let t = k + 1;
                    match find_sign_in(&s, t) {
                        Some(j) => {
                            proof { lemma_find_sign_bounds(s@, t as int); }
                            match signed_in(&s, j, n) {
                                None => Err(ParseError::InvalidModifierFormat),
                                Some(b) => match unsigned_in(&s, t, j) {
                                    None => Err(ParseError::InvalidDieFormat),
                                    Some(d) => Ok(
                                        Roll { num, die: d, bonus: b, exclude: Exclude::KeepAll },
                                    ),
                                },
                            }
                        },
                        None => match unsigned_in(&s, t, n) {
                            None => Err(ParseError::InvalidDieFormat),
                            Some(d) => Ok(Roll { num, die: d, bonus: 0, exclude: Exclude::KeepAll }),
                        },
                    }
                },
            }
        },
    }
}

proof fn lemma_find_sign_bounds(s: Seq<char>, i: int)
    ensures
        find_sign_from(s, i) matches Some(j) ==> i <= j < s.len(),
    decreases s.len() - i,
{
    if 0 <= i < s.len() && !(s[i] == '+' || s[i] == '-') {
        lemma_find_sign_bounds(s, i + 1);
    }
}


/// The rolls that a named shortcut stands for, in order; `None` for any
/// other token.
pub open spec fn shortcut(t: Seq<char>) -> Option<Seq<Roll>> {
    if t == "adv"@ || t == "advantage"@ {
        Some(seq![Roll { num: 2, die: 20, bonus: 0, exclude: Exclude::Low }])
    } else if t == "dis"@ || t == "disadvantage"@ {
        Some(seq![Roll { num: 2, die: 20, bonus: 0, exclude: Exclude::High }])
    } else if t == "chaos"@ || t == "chaos_bolt"@ {
        Some(
            seq![
                Roll { num: 2, die: 8, bonus: 0, exclude: Exclude::KeepAll },
                Roll { num: 1, die: 6, bonus: 0, exclude: Exclude::KeepAll },
            ],
        )
    } else if t == "stats"@ || t == "char"@ || t == "character"@ {
        Some(Seq::new(6, |i: int| Roll { num: 4, die: 6, bonus: 0, exclude: Exclude::Low }))
    } else if t == "tiny-objects"@ || t == "tiny"@ || t == "animate-objects"@ {
        Some(Seq::new(10, |i: int| Roll { num: 1, die: 20, bonus: 8, exclude: Exclude::KeepAll }))
    } else {
        None
    }
}

/// The rolls of one command-line token: a shortcut's rolls, else the one
/// roll of its dice expression.
pub open spec fn parse_token(t: Seq<char>) -> Result<Seq<Roll>, ParseError> {
    match shortcut(t) {
        Some(rs) => Ok(rs),
        None => match parse_expr(t) {
            Ok(r) => Ok(seq![r]),
            Err(e) => Err(e),
        },
    }
}

/// The rolls of a list of tokens, flattened in order; the first token that
/// fails decides the error.
pub open spec fn parse_tokens(ts: Seq<Seq<char>>) -> Result<Seq<Roll>, ParseError>
    decreases ts.len(),
{
    if ts.len() == 0 {
        Ok(Seq::empty())
    } else {
        match parse_tokens(ts.drop_last()) {
            Err(e) => Err(e),
            Ok(prev) => match parse_token(ts.last()) {
                Err(e) => Err(e),
                Ok(rs) => Ok(prev + rs),
            },
        }
    }
}

/// The texts of a list of strings.
pub open spec fn texts(args: Seq<String>) -> Seq<Seq<char>> {
    args.map_values(|a: String| a@)
}

/// A parse result with the list of rolls seen as a sequence.
pub open spec fn parsed_view(r: Result<Vec<Roll>, ParseError>) -> Result<Seq<Roll>, ParseError> {
    match r {
        Ok(v) => Ok(v@),
        Err(e) => Err(e),
    }
}

fn is_word(t: &String, w: &str) -> (r: bool)
    ensures
        r == (t@ == w@),
{
    t.eq(&String::from_str(w))
}

fn copies(r: Roll, n: usize) -> (v: Vec<Roll>)
    ensures
        v@ == Seq::new(n as nat, |i: int| r),
{
    let mut v: Vec<Roll> = Vec::new();
    let mut i: usize = 0;
    while i < n
        invariant
            i <= n,
            v@ == Seq::new(i as nat, |j: int| r),
        decreases n - i,
    {
        v.push(r);
        i = i + 1;
        assert(v@ =~= Seq::new(i as nat, |j: int| r));
    }
    v
}

/// The rolls that a named shortcut stands for; `None` for any other token.
pub fn shortcut_rolls(t: &String) -> (r: Option<Vec<Roll>>)
    ensures
        r matches Some(v) ==> shortcut(t@) == Some(v@),
        r is None ==> shortcut(t@) is None,
{
    if is_word(t, "adv") || is_word(t, "advantage") {
        Some(copies(Roll { num: 2, die: 20, bonus: 0, exclude: Exclude::Low }, 1))
    } else if is_word(t, "dis") || is_word(t, "disadvantage") {
        Some(copies(Roll { num: 2, die: 20, bonus: 0, exclude: Exclude::High }, 1))
    } else if is_word(t, "chaos") || is_word(t, "chaos_bolt") {
        let mut v: Vec<Roll> = Vec::new();
        v.push(Roll { num: 2, die: 8, bonus: 0, exclude: Exclude::KeepAll });
        v.push(Roll { num: 1, die: 6, bonus: 0, exclude: Exclude::KeepAll });
        Some(v)
    } else if is_word(t, "stats") || is_word(t, "char") || is_word(t, "character") {
        Some(copies(Roll { num: 4, die: 6, bonus: 0, exclude: Exclude::Low }, 6))
    } else if is_word(t, "tiny-objects") || is_word(t, "tiny") || is_word(t, "animate-objects") {
        Some(copies(Roll { num: 1, die: 20, bonus: 8, exclude: Exclude::KeepAll }, 10))
    } else {
        None
    }
}

/// Parses every token in order, expanding shortcuts, into one list of
/// rolls; the first token that fails stops the whole parse with its error.
pub fn parse_args(args: &Vec<String>) -> (r: Result<Vec<Roll>, ParseError>)
    ensures
        parsed_view(r) == parse_tokens(texts(args@)),
{
    let ghost ts = texts(args@);
    let mut out: Vec<Roll> = Vec::new();
    let mut i: usize = 0;
    assert(ts.subrange(0, 0) =~= Seq::<Seq<char>>::empty());
    while i < args.len()
        invariant
            i <= args@.len(),
            ts == texts(args@),
            parse_tokens(ts.subrange(0, i as int)) == Ok::<Seq<Roll>, ParseError>(out@),
        decreases args@.len() - i,
    {
        let ghost pre = ts.subrange(0, i as int + 1);
        assert(pre.drop_last() =~= ts.subrange(0, i as int));
        assert(pre.last() == args@[i as int]@);
        let ghost before = out@;
        match shortcut_rolls(&args[i]) {
            Some(mut rs) => {
                let ghost added = rs@;
                out.append(&mut rs);
                assert(out@ =~= before + added);
            },
            None => match parse_arg(args[i].as_str()) {
                Ok(roll) => {
                    out.push(roll);
                    assert(out@ =~= before + seq![roll]);
                },
                Err(e) => {
                    assert(ts.subrange(0, i as int + 1) == pre);
                    proof { lemma_parse_tokens_error(ts, i as int + 1); }
                    return Err(e);
                },
            },
        }
        i = i + 1;
    }
    assert(ts.subrange(0, i as int) =~= ts);
    Ok(out)
}

/// Once a prefix of the tokens fails, the whole list fails with that error.
proof fn lemma_parse_tokens_error(ts: Seq<Seq<char>>, k: int)
    requires
        0 <= k <= ts.len(),
        parse_tokens(ts.subrange(0, k)) is Err,
    ensures
        parse_tokens(ts) == parse_tokens(ts.subrange(0, k)),
    decreases ts.len() - k,
{
    if k < ts.len() {
        let p = ts.subrange(0, k + 1);
        assert(p.drop_last() =~= ts.subrange(0, k));
        lemma_parse_tokens_error(ts, k + 1);
    } else {
        assert(ts.subrange(0, k) =~= ts);
    }
}

} // verus!
