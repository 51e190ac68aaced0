use bandits::config::{Config, Script, ScriptResult};
use bandits::not_nan::NotNan;
use bandits::schedule::{
    arms, choose_script, lint, parse_mapping, reset_state, script_result, update_state, Finding,
    Lint,
};
use bandits::thompson::ThompsonInfo;

fn number(x: f64) -> NotNan {
    NotNan::new(x.to_bits()).unwrap()
}

fn script(name: &str, interesting: u64, uninteresting: u64, runtime: Option<f64>) -> Script {
    let mut script = Script::new(name.to_string(), format!("./{}.sh", name));
    script.results = ThompsonInfo { interesting, uninteresting };
    script.runcount = interesting + uninteresting;
    script.avgruntime_ms = runtime.map(number);
    script
}

fn roster() -> Config {
    Config {
        scripts: vec![
            script("first", 3, 4, Some(12.5)),
            script("second", 0, 9, Some(1.0)),
            script("third", 7, 0, None),
        ],
    }
}

fn message() -> String {
    "Mapping should be in the format key=value".to_string()
}

#[test]
fn parse_mapping_splits_at_the_only_separator() {
    assert_eq!(parse_mapping("key=value"), Ok(("key".to_string(), "value".to_string())));
    assert_eq!(
        parse_mapping("fuzz=./run fuzz --fast"),
        Ok(("fuzz".to_string(), "./run fuzz --fast".to_string()))
    );
}

#[test]
fn parse_mapping_takes_empty_sides() {
    assert_eq!(parse_mapping("="), Ok((String::new(), String::new())));
    assert_eq!(parse_mapping("key="), Ok(("key".to_string(), String::new())));
    assert_eq!(parse_mapping("=value"), Ok((String::new(), "value".to_string())));
}

#[test]
fn parse_mapping_counts_characters_not_bytes() {
    assert_eq!(
        parse_mapping("pr\u{fc}fung=\u{e9}t\u{e9} \u{1f600}"),
        Ok(("pr\u{fc}fung".to_string(), "\u{e9}t\u{e9} \u{1f600}".to_string()))
    );
}

#[test]
fn parse_mapping_refuses_a_text_without_separator() {
    assert_eq!(parse_mapping("keyvalue"), Err(message()));
    assert_eq!(parse_mapping(""), Err(message()));
}

#[test]
fn parse_mapping_refuses_a_second_separator() {
    assert_eq!(parse_mapping("a=b=c"), Err(message()));
    assert_eq!(parse_mapping("=="), Err(message()));
    assert_eq!(parse_mapping("a=b="), Err(message()));
}

#[test]
fn a_new_script_has_not_run() {
    let fresh = Script::new("name".to_string(), "command --flag".to_string());
    assert_eq!(fresh.name, "name");
    assert_eq!(fresh.command, "command --flag");
    assert_eq!(fresh.results.interesting, 0);
    assert_eq!(fresh.results.uninteresting, 0);
    assert_eq!(fresh.runcount, 0);
    assert!(fresh.avgruntime_ms.is_none());
    assert_eq!(fresh.bias.to_bits(), 1.0f64.to_bits());
    assert_eq!(fresh.limit, None);
}

#[test]
fn reset_without_a_name_clears_every_script() {
    let mut config = roster();
    config.scripts[1].limit = Some(5);
    config.scripts[2].bias = number(2.5);
    reset_state(&mut config, None);
    assert_eq!(config.scripts.len(), 3);
    for script in config.scripts.iter() {
        assert_eq!(script.results.interesting, 0);
        assert_eq!(script.results.uninteresting, 0);
        assert_eq!(script.runcount, 0);
        assert!(script.avgruntime_ms.is_none());
    }
    assert_eq!(config.scripts[0].name, "first");
    assert_eq!(config.scripts[1].name, "second");
    assert_eq!(config.scripts[2].command, "./third.sh");
    assert_eq!(config.scripts[1].limit, Some(5));
    assert_eq!(config.scripts[2].bias.to_bits(), 2.5f64.to_bits());
}

#[test]
fn reset_by_name_clears_the_scripts_of_that_name() {
    let mut config = roster();
    config.scripts.push(script("second", 1, 1, Some(3.0)));
    reset_state(&mut config, Some("second".to_string()));
    assert_eq!(config.scripts[0].results.interesting, 3);
    assert_eq!(config.scripts[0].results.uninteresting, 4);
    assert_eq!(config.scripts[0].runcount, 7);
    assert_eq!(config.scripts[0].avgruntime_ms.unwrap().to_bits(), 12.5f64.to_bits());
    assert_eq!(config.scripts[1].results.interesting, 0);
    assert_eq!(config.scripts[1].results.uninteresting, 0);
    assert_eq!(config.scripts[1].runcount, 0);
    assert!(config.scripts[1].avgruntime_ms.is_none());
    assert_eq!(config.scripts[2].results.interesting, 7);
    assert!(config.scripts[2].avgruntime_ms.is_none());
    assert_eq!(config.scripts[3].results.interesting, 0);
    assert_eq!(config.scripts[3].runcount, 0);
    assert!(config.scripts[3].avgruntime_ms.is_none());
}

#[test]
fn reset_by_an_unknown_name_changes_nothing() {
    let mut config = roster();
    reset_state(&mut config, Some("fourth".to_string()));
    assert_eq!(config.scripts[0].results.interesting, 3);
    assert_eq!(config.scripts[1].results.uninteresting, 9);
    assert_eq!(config.scripts[1].runcount, 9);
    assert_eq!(config.scripts[2].results.interesting, 7);
    assert_eq!(config.scripts[0].avgruntime_ms.unwrap().to_bits(), 12.5f64.to_bits());
}

#[test]
fn reset_of_an_empty_roster_leaves_it_empty() {
    let mut config = Config { scripts: Vec::new() };
    reset_state(&mut config, None);
    assert!(config.scripts.is_empty());
    reset_state(&mut config, Some("any".to_string()));
    assert!(config.scripts.is_empty());
}

#[test]
fn a_run_counts_by_its_exit() {
    let passed = script_result(true, Some(0), 17);
    assert_eq!((passed.interesting, passed.uninteresting, passed.runtime_ms), (0, 1, 17));
    let failed = script_result(false, Some(1), 250);
    assert_eq!((failed.interesting, failed.uninteresting, failed.runtime_ms), (1, 0, 250));
    let crashed = script_result(false, Some(2), 3);
    assert_eq!((crashed.interesting, crashed.uninteresting, crashed.runtime_ms), (0, 0, 3));
    let killed = script_result(false, None, u128::MAX);
    assert_eq!((killed.interesting, killed.uninteresting, killed.runtime_ms), (0, 0, u128::MAX));
    let negative = script_result(false, Some(-1), 0);
    assert_eq!((negative.interesting, negative.uninteresting), (0, 0));
}

#[test]
fn update_adds_the_outcome_and_counts_the_run() {
    let mut held = script("first", 3, 4, Some(12.5));
    held.limit = Some(10);
    held.bias = number(0.25);
    update_state(
        &mut held,
        ScriptResult { interesting: 1, uninteresting: 0, runtime_ms: 20 },
        number(13.4375),
    );
    assert_eq!(held.results.interesting, 4);
    assert_eq!(held.results.uninteresting, 4);
    assert_eq!(held.runcount, 8);
    assert_eq!(held.avgruntime_ms.unwrap().to_bits(), 13.4375f64.to_bits());
    assert_eq!(held.name, "first");
    assert_eq!(held.command, "./first.sh");
    assert_eq!(held.limit, Some(10));
    assert_eq!(held.bias.to_bits(), 0.25f64.to_bits());
    update_state(
        &mut held,
        ScriptResult { interesting: 0, uninteresting: 1, runtime_ms: 5 },
        number(12.5),
    );
    assert_eq!(held.results.interesting, 4);
    assert_eq!(held.results.uninteresting, 5);
    assert_eq!(held.runcount, 9);
}

#[test]
fn update_never_lowers_a_count() {
    let mut held = Script::new("s".to_string(), "c".to_string());
    let mut before: (u64, u64, u64) = (0, 0, 0);
    let outcomes: [(bool, Option<i32>); 5] =
        [(true, Some(0)), (false, Some(1)), (false, Some(9)), (false, None), (false, Some(1))];
    for (success, code) in outcomes.iter() {
        update_state(&mut held, script_result(*success, *code, 1), number(1.0));
        assert!(held.results.interesting >= before.0);
        assert!(held.results.uninteresting >= before.1);
        assert_eq!(held.runcount, before.2 + 1);
        before = (held.results.interesting, held.results.uninteresting, held.runcount);
    }
    assert_eq!(before, (2, 1, 5));
}

#[test]
fn arms_are_the_scripts_that_take_part() {
    let mut config = roster();
    config.scripts[0].bias = number(2.0);
    config.scripts[1].bias = number(3.0);
    config.scripts[2].bias = number(4.0);
    let all = arms(&config);
    assert_eq!(all.len(), 3);
    assert_eq!(all[0].results.interesting, 3);
    assert_eq!(all[0].runtime.unwrap().to_bits(), 12.5f64.to_bits());
    assert_eq!(all[0].bias.to_bits(), 2.0f64.to_bits());
    assert_eq!(all[2].results.interesting, 7);
    assert!(all[2].runtime.is_none());
    assert_eq!(all[2].bias.to_bits(), 4.0f64.to_bits());
}

#[test]
fn a_limit_keeps_a_script_out_until_it_is_exceeded() {
    let mut config = roster();
    config.scripts[0].limit = Some(3);
    config.scripts[0].bias = number(2.0);
    config.scripts[1].limit = Some(0);
    config.scripts[1].bias = number(3.0);
    config.scripts[2].limit = Some(6);
    config.scripts[2].bias = number(4.0);
    let taking_part = arms(&config);
    assert_eq!(taking_part.len(), 1);
    assert_eq!(taking_part[0].results.interesting, 7);
    assert_eq!(taking_part[0].results.uninteresting, 0);
    assert!(taking_part[0].runtime.is_none());
    assert_eq!(taking_part[0].bias.to_bits(), 2.0f64.to_bits());
    config.scripts[0].limit = Some(2);
    let taking_part = arms(&config);
    assert_eq!(taking_part.len(), 2);
    assert_eq!(taking_part[0].results.interesting, 3);
    assert_eq!(taking_part[0].bias.to_bits(), 2.0f64.to_bits());
    assert_eq!(taking_part[1].results.interesting, 7);
    assert_eq!(taking_part[1].bias.to_bits(), 3.0f64.to_bits());
}

#[test]
fn an_empty_roster_has_no_arms_and_no_choice() {
    let config = Config { scripts: Vec::new() };
    assert!(arms(&config).is_empty());
    assert_eq!(choose_script(&config, true, &[]), None);
    assert_eq!(choose_script(&config, false, &[]), None);
}

#[test]
fn choice_without_runtime_takes_the_largest_percentile() {
    let config = roster();
    let percentiles = [number(0.25), number(0.75), number(0.5)];
    assert_eq!(choose_script(&config, true, &percentiles), Some(1));
}

#[test]
fn choice_with_runtime_takes_the_script_that_never_ran() {
    let config = roster();
    let percentiles = [number(25.0), number(75.0), number(0.5)];
    assert_eq!(choose_script(&config, false, &percentiles), Some(2));
    let mut known = roster();
    known.scripts[2].avgruntime_ms = Some(number(4.0));
    assert_eq!(choose_script(&known, false, &percentiles), Some(1));
}

#[test]
fn lint_finds_nothing_on_a_sound_roster() {
    assert_eq!(lint(&roster()), Vec::new());
    assert_eq!(lint(&Config { scripts: Vec::new() }), Vec::new());
}

#[test]
fn lint_tells_each_fault_in_the_order_of_the_roster() {
    let mut config = roster();
    config.scripts[0].bias = number(0.0);
    config.scripts[0].limit = Some(0);
    config.scripts[1].bias = number(-2.0);
    config.scripts[2].bias = number(-0.0);
    config.scripts.push(script("fourth", 0, 0, None));
    config.scripts[3].bias = number(0.0);
    config.scripts[3].limit = Some(1);
    assert_eq!(
        lint(&config),
        vec![
            Finding { script: 0, lint: Lint::ZeroBias },
            Finding { script: 0, lint: Lint::ZeroLimit },
            Finding { script: 1, lint: Lint::NegativeBias },
            Finding { script: 2, lint: Lint::ZeroBias },
            Finding { script: 2, lint: Lint::RepeatedZeroBias },
            Finding { script: 3, lint: Lint::ZeroBias },
            Finding { script: 3, lint: Lint::RepeatedZeroBias },
        ]
    );
}
