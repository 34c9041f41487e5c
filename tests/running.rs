use dice::driver::{report_lines, run, Line};
use dice::parse::ParseError;
use dice::roll::{Exclude, Roll};
use rand::rngs::StdRng;
use rand::SeedableRng;

fn strings(v: &[&str]) -> Vec<String> {
    v.iter().map(|s| s.to_string()).collect()
}

fn texts(lines: &[Line]) -> Vec<(bool, String)> {
    lines.iter().map(|l| (l.to_stderr, l.text.clone())).collect()
}

#[test]
fn run_four_d_six_one_line() {
    let mut rng = StdRng::seed_from_u64(1);
    let lines = run("dice", &strings(&["4d6"]), &mut rng);
    assert_eq!(lines.len(), 1);
    assert!(!lines[0].to_stderr);
    let body = lines[0].text.strip_prefix("[4d6] ").unwrap();
    let (list, fin) = body.split_once("final = ").unwrap();
    let vals: Vec<i128> = list.trim_end_matches(", ").split(", ").map(|x| x.parse().unwrap()).collect();
    assert_eq!(vals.len(), 4);
    assert_eq!(fin.parse::<i128>().unwrap(), vals.iter().sum::<i128>());
}

#[test]
fn run_advantage_one_line() {
    let mut rng = StdRng::seed_from_u64(2);
    let lines = run("dice", &strings(&["adv"]), &mut rng);
    assert_eq!(lines.len(), 1);
    assert!(lines[0].text.starts_with("[2d20 - low] "));
    assert_eq!(lines[0].text.matches('(').count(), 1);
}

#[test]
fn run_bogus_reports_error() {
    let mut rng = StdRng::seed_from_u64(3);
    let lines = run("dice", &strings(&["bogus"]), &mut rng);
    assert_eq!(texts(&lines), vec![(false, "dice: invalid roll format: no die specified".to_string())]);
    let lines = run("dice", &strings(&["4d6", "bogus"]), &mut rng);
    assert_eq!(texts(&lines), vec![(false, "dice: invalid roll format: no die specified".to_string())]);
}

#[test]
fn run_without_tokens() {
    let mut rng = StdRng::seed_from_u64(4);
    let lines = run("dice", &Vec::new(), &mut rng);
    assert_eq!(texts(&lines), vec![(false, "dice: no dice specified".to_string())]);
}

#[test]
fn run_several_prints_total() {
    let mut rng = StdRng::seed_from_u64(5);
    let lines = run("dice", &strings(&["5", "-2", "d1"]), &mut rng);
    assert_eq!(
        texts(&lines),
        vec![
            (false, "[5] 5".to_string()),
            (false, "[-2] -2".to_string()),
            (false, "[d1] 1".to_string()),
            (false, "Total roll: 4".to_string()),
        ]
    );
}

#[test]
fn report_lines_with_given_draws() {
    let rolls = vec![
        Roll { num: 2, die: 20, bonus: 0, exclude: Exclude::Low },
        Roll { num: 0, die: 6, bonus: 0, exclude: Exclude::KeepAll },
        Roll { num: 1, die: 0, bonus: -30, exclude: Exclude::KeepAll },
    ];
    let draws = vec![vec![12, 18], vec![], vec![0]];
    let lines = report_lines("dice", &Ok(rolls), &draws);
    assert_eq!(
        texts(&lines),
        vec![
            (false, "[2d20 - low] (12), 18, final = 18".to_string()),
            (false, "[0d6] no dice rolled".to_string()),
            (true, "error has occurred".to_string()),
            (false, "[-30] -30".to_string()),
            (false, "Total roll: -12".to_string()),
        ]
    );
}

#[test]
fn report_lines_single_zero_dice() {
    let rolls = vec![Roll { num: 0, die: 6, bonus: 0, exclude: Exclude::KeepAll }];
    let lines = report_lines("dice", &Ok(rolls), &vec![vec![]]);
    assert_eq!(texts(&lines), vec![(false, "[0d6] no dice rolled".to_string())]);
}

#[test]
fn report_lines_parse_error() {
    let lines = report_lines("dice", &Err(ParseError::InvalidModifierFormat), &Vec::new());
    assert_eq!(
        texts(&lines),
        vec![(false, "dice: invalid roll format: modifier must be an integer".to_string())]
    );
}
