//! Simulating a roll: drawing the dice, dropping one extreme die, and the
//! trace line that shows what happened.

use vstd::prelude::*;
use rand::rngs::StdRng;
use crate::roll::{Exclude, Roll};
use crate::text::{int_text, nat_text, signed_text, push_int, push_nat, push_signed};

verus! {

#[verifier::external_type_specification]
#[verifier::external_body]
pub struct ExStdRng(StdRng);

/// Relies on rand's `Rng::gen_range` over `1..=high`: a value in that range,
/// which is not empty since `high >= 1`.
#[verifier::external_body]
fn gen_inclusive(rng: &mut StdRng, high: u32) -> (r: u32)
    requires
        1 <= high,
    ensures
        1 <= r <= high,
{
    rand::Rng::gen_range(rng, 1..=high)
}

/// A possible face of a die of `die` sides; a die of zero sides always shows 0.
pub open spec fn valid_draw(die: u32, v: u32) -> bool {
    if die == 0 {
        v == 0
    } else {
        1 <= v <= die
    }
}

/// One possible face for each of the roll's dice.
pub open spec fn valid_draws(r: Roll, d: Seq<u32>) -> bool {
    d.len() == r.num && forall|i: int| 0 <= i < d.len() ==> valid_draw(r.die, #[trigger] d[i])
}

/// The sum of the draws.
pub open spec fn sum(d: Seq<u32>) -> int
    decreases d.len(),
{
    if d.len() == 0 {
        0
    } else {
        sum(d.drop_last()) + d.last()
    }
}

/// The value taken off the total: the running minimum (from `u32::MAX`) for
/// `Low`, the running maximum (from 0) for `High`, and 0 otherwise.
pub open spec fn dropped(ex: Exclude, d: Seq<u32>) -> u32
    decreases d.len(),
{
    if d.len() == 0 {
        match ex {
            Exclude::Low => u32::MAX,
            _ => 0,
        }
    } else {
        let p = dropped(ex, d.drop_last());
        let v = d.last();
        match ex {
            Exclude::Low => if v < p { v } else { p },
            Exclude::High => if p < v { v } else { p },
            Exclude::KeepAll => 0,
        }
    }
}

/// The first index at or after `i` whose draw is `x`.
pub open spec fn first_at(d: Seq<u32>, x: u32, i: int) -> Option<int>
    decreases d.len() - i,
{
    if i < 0 || i >= d.len() {
        None
    } else if d[i] == x {
        Some(i)
    } else {
        first_at(d, x, i + 1)
    }
}

/// The index of the draw shown in parentheses: the first one equal to the
/// dropped value, or -1 when there is none.
pub open spec fn mark_index(ex: Exclude, d: Seq<u32>) -> int {
    match first_at(d, dropped(ex, d), 0) {
        Some(i) => i,
        None => -1,
    }
}

/// One draw in the list: `v, ` or, when it is the dropped one, `(v), `.
pub open spec fn item_text(v: u32, marked: bool) -> Seq<char> {
    if marked {
        "("@ + nat_text(v as nat) + "), "@
    } else {
        nat_text(v as nat) + ", "@
    }
}

/// The list of draws, with the draw at index `mark` in parentheses.
pub open spec fn list_text(d: Seq<u32>, mark: int) -> Seq<char>
    decreases d.len(),
{
    if d.len() == 0 {
        Seq::empty()
    } else {
        list_text(d.drop_last(), mark) + item_text(d.last(), d.len() - 1 == mark)
    }
}

/// The bracketed description of a roll: `[4d6]`, `[d20+5]`, `[-3]`,
/// `[2d20 - low]`, followed by a space.
pub open spec fn header_text(r: Roll) -> Seq<char> {
    let dice = if r.die != 0 {
        (if r.num != 1 { nat_text(r.num as nat) } else { Seq::empty() }) + "d"@ + nat_text(
            r.die as nat,
        )
    } else {
        Seq::empty()
    };
    let bonus = if r.bonus == 0 {
        Seq::empty()
    } else if r.die != 0 {
        signed_text(r.bonus as int)
    } else {
        int_text(r.bonus as int)
    };
    let tag = match r.exclude {
        Exclude::Low => " - low"@,
        Exclude::High => " - high"@,
        Exclude::KeepAll => Seq::empty(),
    };
    "["@ + dice + bonus + tag + "] "@
}

/// The total of a roll of two or more dice.
pub open spec fn multi_total(r: Roll, d: Seq<u32>) -> int {
    sum(d) + r.bonus - dropped(r.exclude, d)
}

/// What follows the header, and the numeric result, for the draws `d`.
/// Dice of zero sides always show 0; with two or more of them the list of
/// zeros is shown like any other, the first `0` is marked when a die is
/// dropped, and the result is the bonus.
pub open spec fn detail(r: Roll, d: Seq<u32>) -> (Seq<char>, Option<int>) {
    if r.num == 1 {
        (int_text(d[0] + r.bonus), Some(d[0] + r.bonus))
    } else if r.num > 1 {
        (
            list_text(d, mark_index(r.exclude, d)) + "final = "@ + int_text(multi_total(r, d)),
            Some(multi_total(r, d)),
        )
    } else {
        ("no dice rolled"@, None)
    }
}

/// The whole trace line (without its line break) for the draws `d`.
pub open spec fn trace_text(r: Roll, d: Seq<u32>) -> Seq<char> {
    header_text(r) + detail(r, d).0
}

/// The numeric result for the draws `d`, if any dice were rolled.
pub open spec fn result_of(r: Roll, d: Seq<u32>) -> Option<int> {
    detail(r, d).1
}

/// A machine result seen as a mathematical integer.
pub open spec fn result_view(v: Option<i128>) -> Option<int> {
    match v {
        Some(x) => Some(x as int),
        None => None,
    }
}

/// Draws one die of `die` sides: uniform in `1..=die`, or 0 for no die.
pub fn roll_die(die: u32, rng: &mut StdRng) -> (r: u32)
    ensures
        valid_draw(die, r),
        die == 0 ==> *final(rng) == *old(rng),
{
    if die == 0 {
        0
    } else {
        gen_inclusive(rng, die)
    }
}

proof fn lemma_first_at_bounds(d: Seq<u32>, x: u32, i: int)
    ensures
        first_at(d, x, i) matches Some(j) ==> i <= j < d.len() && d[j] == x,
    decreases d.len() - i,
{
    if 0 <= i < d.len() && d[i] != x {
        lemma_first_at_bounds(d, x, i + 1);
    }
}

impl Roll {
    /// The bracketed header of this roll's trace line.
    pub fn header(&self) -> (r: String)
        ensures
            r@ == header_text(*self),
    {
        let mut out = String::new();
        out.append("[");
        if self.die != 0 {
            if self.num != 1 {
                push_nat(&mut out, self.num as u128);
            }
            out.append("d");
            push_nat(&mut out, self.die as u128);
        }
        if self.bonus != 0 {
            if self.die != 0 {
                push_signed(&mut out, self.bonus as i128);
            } else {
                push_int(&mut out, self.bonus as i128);
            }
        }
        match self.exclude {
            Exclude::Low => out.append(" - low"),
            Exclude::High => out.append(" - high"),
            Exclude::KeepAll => {},
        }
        out.append("] ");
        assert(out@ =~= header_text(*self));
        out
    }

    /// The trace line and result of this roll for the given draws, one per die.
    pub fn describe(&self, draws: &Vec<u32>) -> (r: (String, Option<i128>))
        requires
            draws@.len() == self.num,
        ensures
            r.0@ == trace_text(*self, draws@),
            result_view(r.1) == result_of(*self, draws@),
    {
        let mut out = self.header();
        let ghost head = out@;
        if self.num == 1 {
            let v = draws[0] as i128 + self.bonus as i128;
            push_int(&mut out, v);
            assert(out@ =~= trace_text(*self, draws@));
            (out, Some(v))
        } else if self.num > 1 {
            let ghost d = draws@;
            let mut excl: u32 = match self.exclude {
                Exclude::Low => u32::MAX,
                _ => 0,
            };
            let mut total: u128 = 0;
            let mut i: usize = 0;
            assert(d.subrange(0, 0) =~= Seq::<u32>::empty());
            while i < draws.len()
                invariant
                    d == draws@,
                    i <= d.len(),
                    d.len() == self.num,
                    excl == dropped(self.exclude, d.subrange(0, i as int)),
                    total as int == sum(d.subrange(0, i as int)),
                    total <= i * 0x1_0000_0000,
                decreases d.len() - i,
            {
                let v = draws[i];
                let ghost p = d.subrange(0, i as int + 1);
                assert(p.drop_last() =~= d.subrange(0, i as int));
                match self.exclude {
                    Exclude::Low => {
                        if v < excl {
                            excl = v;
                        }
                    },
                    Exclude::High => {
                        if excl < v {
                            excl = v;
                        }
                    },
                    Exclude::KeepAll => {},
                }
                total = total + v as u128;
                i = i + 1;
            }
            assert(d.subrange(0, i as int) =~= d);
            let ghost m = mark_index(self.exclude, d);
            proof { lemma_first_at_bounds(d, excl, 0); }
            let mut shown = false;
            let mut j: usize = 0;
            assert(d.subrange(0, 0) =~= Seq::<u32>::empty());
            assert(out@ =~= head + list_text(d.subrange(0, 0), m));
            while j < draws.len()
                invariant
                    d == draws@,
                    j <= d.len(),
                    excl == dropped(self.exclude, d),
                    m == mark_index(self.exclude, d),
                    shown ==> 0 <= m < j,
                    !shown ==> first_at(d, excl, 0) == first_at(d, excl, j as int),
                    out@ == head + list_text(d.subrange(0, j as int), m),
                decreases d.len() - j,
            {
                let v = draws[j];
                let ghost p = d.subrange(0, j as int + 1);
                assert(p.drop_last() =~= d.subrange(0, j as int));
                proof { lemma_first_at_bounds(d, excl, j as int + 1); }
                if v == excl && !shown {
                    shown = true;
                    out.append("(");
                    push_nat(&mut out, v as u128);
                    out.append("), ");
                    assert(j as int == m);
                } else {
                    push_nat(&mut out, v as u128);
                    out.append(", ");
                    assert(j as int != m);
                }
                assert(out@ =~= head + list_text(p, m));
                j = j + 1;
            }
            assert(d.subrange(0, j as int) =~= d);
            out.append("final = ");
            let t = total as i128 + self.bonus as i128 - excl as i128;
            push_int(&mut out, t);
            assert(out@ =~= trace_text(*self, draws@));
            (out, Some(t))
        } else {
            out.append("no dice rolled");
            (out, None)
        }
    }

    /// Draws one face for each of this roll's dice.
    pub fn draw_all(&self, rng: &mut StdRng) -> (d: Vec<u32>)
        ensures
            valid_draws(*self, d@),
            self.num == 0 || self.die == 0 ==> *final(rng) == *old(rng),
    {
        let mut d: Vec<u32> = Vec::new();
        let mut i: u32 = 0;
        while i < self.num
            invariant
                i <= self.num,
                d@.len() == i,
                forall|k: int| 0 <= k < d@.len() ==> valid_draw(self.die, #[trigger] d@[k]),
                self.die == 0 || i == 0 ==> *rng == *old(rng),
            decreases self.num - i,
        {
            let v = roll_die(self.die, rng);
            d.push(v);
            i = i + 1;
        }
        d
    }

    /// Simulates this roll: its trace line and, when any dice were rolled,
    /// its result.
    pub fn roll(&self, rng: &mut StdRng) -> (r: (String, Option<i128>))
        ensures
            exists|d: Seq<u32>|
                valid_draws(*self, d) && r.0@ == trace_text(*self, d) && result_view(r.1)
                    == result_of(*self, d),
            self.num == 0 || self.die == 0 ==> *final(rng) == *old(rng),
    {
        let d = self.draw_all(rng);
        let r = self.describe(&d);
        assert(valid_draws(*self, d@) && r.0@ == trace_text(*self, d@));
        r
    }
}

} // verus!
