use dice::parse::{parse_arg, parse_args, shortcut_rolls, ParseError};
use dice::roll::{Exclude, Roll};

fn roll(num: u32, die: u32, bonus: i32, exclude: Exclude) -> Roll {
    Roll { num, die, bonus, exclude }
}

fn strings(v: &[&str]) -> Vec<String> {
    v.iter().map(|s| s.to_string()).collect()
}

#[test]
fn parse_plain_count_and_die() {
    assert_eq!(parse_arg("d10"), Ok(roll(1, 10, 0, Exclude::KeepAll)));
    assert_eq!(parse_arg("4d6"), Ok(roll(4, 6, 0, Exclude::KeepAll)));
    assert_eq!(parse_arg("5"), Ok(roll(1, 0, 5, Exclude::KeepAll)));
}

#[test]
fn parse_with_modifier() {
    assert_eq!(parse_arg("2d6+3"), Ok(roll(2, 6, 3, Exclude::KeepAll)));
    assert_eq!(parse_arg("1d20-2"), Ok(roll(1, 20, -2, Exclude::KeepAll)));
}

#[test]
fn parse_many_count_die_pairs() {
    for n in [1u32, 2, 9, 10, 99, 4294967295] {
        for m in [1u32, 6, 20, 100, 4294967295] {
            let t = format!("{}d{}", n, m);
            assert_eq!(parse_arg(&t), Ok(roll(n, m, 0, Exclude::KeepAll)));
        }
    }
}

#[test]
fn parse_flat_values() {
    assert_eq!(parse_arg("-3"), Ok(roll(1, 0, -3, Exclude::KeepAll)));
    assert_eq!(parse_arg("+7"), Ok(roll(1, 0, 7, Exclude::KeepAll)));
    assert_eq!(parse_arg("-2147483648"), Ok(roll(1, 0, i32::MIN, Exclude::KeepAll)));
    assert_eq!(parse_arg("2147483648"), Err(ParseError::NoDieSpecified));
}

#[test]
fn parse_errors() {
    assert_eq!(parse_arg("bogus"), Err(ParseError::NoDieSpecified));
    assert_eq!(parse_arg(""), Err(ParseError::NoDieSpecified));
    assert_eq!(parse_arg("2dx"), Err(ParseError::InvalidDieFormat));
    assert_eq!(parse_arg("2d"), Err(ParseError::InvalidDieFormat));
    assert_eq!(parse_arg("2d6+x"), Err(ParseError::InvalidModifierFormat));
    assert_eq!(parse_arg("2d6+"), Err(ParseError::InvalidModifierFormat));
    assert_eq!(parse_arg("2dx+3"), Err(ParseError::InvalidDieFormat));
    assert_eq!(parse_arg("d4294967296"), Err(ParseError::InvalidDieFormat));
}

#[test]
fn parse_first_sign_splits() {
    assert_eq!(parse_arg("2d6-1+2"), Err(ParseError::InvalidModifierFormat));
    assert_eq!(parse_arg("d8-0"), Ok(roll(1, 8, 0, Exclude::KeepAll)));
}

#[test]
fn parse_count_must_be_a_number() {
    assert_eq!(parse_arg("xd6"), Err(ParseError::InvalidDieFormat));
    assert_eq!(parse_arg("-1d6"), Err(ParseError::InvalidDieFormat));
    assert_eq!(parse_arg("4294967296d6"), Err(ParseError::InvalidDieFormat));
    assert_eq!(parse_arg("0d6"), Ok(roll(0, 6, 0, Exclude::KeepAll)));
    assert_eq!(parse_arg("+3d6"), Ok(roll(3, 6, 0, Exclude::KeepAll)));
}

#[test]
fn parse_strips_a_single_d() {
    assert_eq!(parse_arg("dd6"), Err(ParseError::InvalidDieFormat));
    assert_eq!(parse_arg("3dd6"), Err(ParseError::InvalidDieFormat));
    assert_eq!(parse_arg("2d6d"), Err(ParseError::InvalidDieFormat));
}

#[test]
fn parse_is_repeatable() {
    let first = parse_arg("3d8+1");
    let _ = parse_arg("bogus");
    assert_eq!(parse_arg("3d8+1"), first);
}

#[test]
fn error_messages() {
    assert_eq!(ParseError::NoDieSpecified.message(), "invalid roll format: no die specified");
    assert_eq!(ParseError::InvalidDieFormat.message(), "invalid roll format: die must be an integer");
    assert_eq!(
        ParseError::InvalidModifierFormat.message(),
        "invalid roll format: modifier must be an integer"
    );
}

#[test]
fn shortcut_advantage() {
    let want = vec![roll(2, 20, 0, Exclude::Low)];
    assert_eq!(shortcut_rolls(&"adv".to_string()), Some(want.clone()));
    assert_eq!(shortcut_rolls(&"advantage".to_string()), Some(want.clone()));
    assert_eq!(parse_args(&strings(&["adv"])), Ok(want));
}

#[test]
fn shortcut_disadvantage_and_chaos() {
    let dis = vec![roll(2, 20, 0, Exclude::High)];
    assert_eq!(parse_args(&strings(&["dis"])), Ok(dis.clone()));
    assert_eq!(parse_args(&strings(&["disadvantage"])), Ok(dis));
    let chaos = vec![roll(2, 8, 0, Exclude::KeepAll), roll(1, 6, 0, Exclude::KeepAll)];
    assert_eq!(parse_args(&strings(&["chaos"])), Ok(chaos.clone()));
    assert_eq!(parse_args(&strings(&["chaos_bolt"])), Ok(chaos));
}

#[test]
fn shortcut_stats_and_tiny() {
    let stats = vec![roll(4, 6, 0, Exclude::Low); 6];
    for t in ["stats", "char", "character"] {
        assert_eq!(parse_args(&strings(&[t])), Ok(stats.clone()));
    }
    let tiny = vec![roll(1, 20, 8, Exclude::KeepAll); 10];
    for t in ["tiny-objects", "tiny", "animate-objects"] {
        assert_eq!(parse_args(&strings(&[t])), Ok(tiny.clone()));
    }
    assert_eq!(shortcut_rolls(&"Adv".to_string()), None);
    assert_eq!(shortcut_rolls(&"4d6".to_string()), None);
}

#[test]
fn parse_args_flattens_in_order() {
    let got = parse_args(&strings(&["adv", "dis", "chaos", "4d6", "d20"]));
    let want = vec![
        roll(2, 20, 0, Exclude::Low),
        roll(2, 20, 0, Exclude::High),
        roll(2, 8, 0, Exclude::KeepAll),
        roll(1, 6, 0, Exclude::KeepAll),
        roll(4, 6, 0, Exclude::KeepAll),
        roll(1, 20, 0, Exclude::KeepAll),
    ];
    assert_eq!(got, Ok(want));
    assert_eq!(parse_args(&Vec::new()), Ok(Vec::new()));
}

#[test]
fn parse_args_first_error_wins() {
    assert_eq!(
        parse_args(&strings(&["4d6", "2dx", "bogus"])),
        Err(ParseError::InvalidDieFormat)
    );
    assert_eq!(parse_args(&strings(&["bogus", "2dx"])), Err(ParseError::NoDieSpecified));
}
