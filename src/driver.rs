//! One run of the program: the tokens of a command line in, the lines to
//! print out.

use vstd::prelude::*;
use rand::rngs::StdRng;
use crate::parse::{message_text, parse_args, parse_tokens, parsed_view, texts, ParseError};
use crate::roll::Roll;
use crate::simulate::{result_of, sum, trace_text, valid_draws};
use crate::text::{int_text, push_nat};

verus! {

/// One line of output, for standard output or for standard error.
pub struct Line {
    pub to_stderr: bool,
    pub text: String,
}

/// Each line as its stream and its text.
pub open spec fn lines_view(ls: Seq<Line>) -> Seq<(bool, Seq<char>)> {
    ls.map_values(|l: Line| (l.to_stderr, l.text@))
}

/// The draws of each roll, as sequences.
pub open spec fn draws_view(ds: Seq<Vec<u32>>) -> Seq<Seq<u32>> {
    ds.map_values(|d: Vec<u32>| d@)
}

/// One list of draws for each roll, of the roll's size.
pub open spec fn sized_for(rolls: Seq<Roll>, ds: Seq<Seq<u32>>) -> bool {
    ds.len() == rolls.len() && forall|i: int|
        0 <= i < rolls.len() ==> (#[trigger] ds[i]).len() == rolls[i].num
}

/// One possible list of draws for each roll.
pub open spec fn valid_for(rolls: Seq<Roll>, ds: Seq<Seq<u32>>) -> bool {
    ds.len() == rolls.len() && forall|i: int|
        0 <= i < rolls.len() ==> valid_draws(rolls[i], #[trigger] ds[i])
}

/// The trace lines of the first `n` rolls, each followed by an error line
/// on standard error when that roll gave no result.
pub open spec fn roll_lines(rolls: Seq<Roll>, ds: Seq<Seq<u32>>, n: nat) -> Seq<(bool, Seq<char>)>
    decreases n,
{
    if n == 0 {
        Seq::empty()
    } else {
        let k = n - 1;
        let extra = if result_of(rolls[k], ds[k]) is None {
            seq![(true, "error has occurred"@)]
        } else {
            Seq::empty()
        };
        roll_lines(rolls, ds, k as nat) + seq![(false, trace_text(rolls[k], ds[k]))] + extra
    }
}

/// The sum of the results of the first `n` rolls; rolls without a result
/// add nothing.
pub open spec fn grand_total(rolls: Seq<Roll>, ds: Seq<Seq<u32>>, n: nat) -> int
    decreases n,
{
    if n == 0 {
        0
    } else {
        let k = n - 1;
        grand_total(rolls, ds, k as nat) + match result_of(rolls[k], ds[k]) {
            Some(v) => v,
            None => 0,
        }
    }
}

/// The output of a run named `name` whose tokens parsed to `parsed` and whose
/// rolls drew `ds`.
pub open spec fn report(
    name: Seq<char>,
    parsed: Result<Seq<Roll>, ParseError>,
    ds: Seq<Seq<u32>>,
) -> Seq<(bool, Seq<char>)> {
    match parsed {
        Err(e) => seq![(false, name + ": "@ + message_text(e))],
        Ok(rolls) => if rolls.len() == 0 {
            seq![(false, name + ": no dice specified"@)]
        } else if rolls.len() == 1 {
            seq![(false, trace_text(rolls[0], ds[0]))]
        } else {
            roll_lines(rolls, ds, rolls.len()) + seq![
                (false, "Total roll: "@ + int_text(grand_total(rolls, ds, rolls.len()))),
            ]
        },
    }
}

proof fn lemma_sum_bound(d: Seq<u32>)
    ensures
        0 <= sum(d) <= d.len() * 0xFFFF_FFFF,
    decreases d.len(),
{
    if d.len() > 0 {
        lemma_sum_bound(d.drop_last());
    }
}

/// A roll's result is below 2^64 in size.
proof fn lemma_result_bound(r: Roll, d: Seq<u32>)
    requires
        d.len() == r.num,
    ensures
        result_of(r, d) matches Some(v) ==> -0x1_0000_0000_0000_0000 < v < 0x1_0000_0000_0000_0000,
{
    lemma_sum_bound(d);
    let n = d.len();
    assert(n * 0xFFFF_FFFF <= 0xFFFF_FFFF * 0xFFFF_FFFF) by (nonlinear_arith)
        requires
            n <= 0xFFFF_FFFF,
    ;
}

/// The lines to print for a parse result and the draws of each roll.
pub fn report_lines(name: &str, parsed: &Result<Vec<Roll>, ParseError>, draws: &Vec<Vec<u32>>) -> (r:
    Vec<Line>)
    requires
        parsed matches Ok(rolls) ==> sized_for(rolls@, draws_view(draws@)),
    ensures
        lines_view(r@) == report(name@, parsed_view(*parsed), draws_view(draws@)),
{
    let ghost ds = draws_view(draws@);
    let mut out: Vec<Line> = Vec::new();
    match parsed {
        Err(e) => {
            let mut t = String::from_str(name);
            t.append(": ");
            t.append(e.message().as_str());
            out.push(Line { to_stderr: false, text: t });
            assert(lines_view(out@) =~= report(name@, parsed_view(*parsed), ds));
        },
        Ok(rolls) => {
            if rolls.len() == 0 {
                let mut t = String::from_str(name);
                t.append(": no dice specified");
                out.push(Line { to_stderr: false, text: t });
                assert(lines_view(out@) =~= report(name@, parsed_view(*parsed), ds));
            } else if rolls.len() == 1 {
                assert(ds[0] == draws@[0]@);
                let (t, _) = rolls[0].describe(&draws[0]);
                out.push(Line { to_stderr: false, text: t });
                assert(lines_view(out@) =~= report(name@, parsed_view(*parsed), ds));
            } else {
                let mut pos: u128 = 0;
                let mut neg: u128 = 0;
                let mut i: usize = 0;
                while i < rolls.len()
                    invariant
                        i <= rolls@.len(),
                        ds == draws_view(draws@),
                        sized_for(rolls@, ds),
                        lines_view(out@) == roll_lines(rolls@, ds, i as nat),
                        pos - neg == grand_total(rolls@, ds, i as nat),
                        pos <= i * 0x1_0000_0000_0000_0000,
                        neg <= i * 0x1_0000_0000_0000_0000,
                    decreases rolls@.len() - i,
                {
                    assert(ds[i as int] == draws@[i as int]@);
                    let (t, v) = rolls[i].describe(&draws[i]);
                    proof { lemma_result_bound(rolls@[i as int], ds[i as int]); }
                    out.push(Line { to_stderr: false, text: t });
                    match v {
                        Some(x) => {
                            if x >= 0 {
                                pos = pos + x as u128;
                            } else {
                                neg = neg + (0 - x) as u128;
                            }
                        },
                        None => {
                            out.push(Line { to_stderr: true, text: String::from_str("error has occurred") });
                        },
                    }
                    i = i + 1;
                    assert(lines_view(out@) =~= roll_lines(rolls@, ds, i as nat));
                }
                let mut t = String::from_str("Total roll: ");
                let ghost head = t@;
                if pos >= neg {
                    push_nat(&mut t, pos - neg);
                } else {
                    t.append("-");
                    push_nat(&mut t, neg - pos);
                    proof { reveal_strlit("-"); }
                    assert(t@ =~= head + int_text(pos - neg));
                }
                out.push(Line { to_stderr: false, text: t });
                assert(lines_view(out@) =~= report(name@, parsed_view(*parsed), ds));
            }
        },
    }
    out
}

/// Parses the tokens, rolls every requested roll, and returns the lines to
/// print: the trace of each roll, and the grand total when there are several.
pub fn run(name: &str, args: &Vec<String>, rng: &mut StdRng) -> (r: Vec<Line>)
    ensures
        exists|ds: Seq<Seq<u32>>|
            (parse_tokens(texts(args@)) matches Ok(rolls) ==> valid_for(rolls, ds)) && lines_view(
                r@,
            ) == report(name@, parse_tokens(texts(args@)), ds),
{
    let parsed = parse_args(args);
    let mut draws: Vec<Vec<u32>> = Vec::new();
    if let Ok(rolls) = &parsed {
        let mut i: usize = 0;
        while i < rolls.len()
            invariant
                i <= rolls@.len(),
                draws@.len() == i,
                forall|k: int| 0 <= k < i ==> valid_draws(rolls@[k], #[trigger] draws@[k]@),
            decreases rolls@.len() - i,
        {
            let d = rolls[i].draw_all(rng);
            draws.push(d);
            i = i + 1;
        }
        assert(valid_for(rolls@, draws_view(draws@)));
    }
    report_lines(name, &parsed, &draws)
}

} // verus!
