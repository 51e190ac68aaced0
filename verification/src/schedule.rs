//! The bookkeeping around the runs: what a run counts as, how it is recorded,
//! and how records are cleared.

use vstd::prelude::*;
use crate::config::{Config, Script, ScriptResult};
use crate::not_nan::NotNan;
use crate::thompson::{
    is_selection, scores, skewed_scores, thompson_sampling, thompson_sampling_bias_runtime,
    ThompsonInfo,
};

verus! {

/// The script with its record cleared.
pub open spec fn cleared(script: Script) -> Script {
    Script {
        results: ThompsonInfo { interesting: 0, uninteresting: 0 },
        runcount: 0,
        avgruntime_ms: None,
        ..script
    }
}

/// Whether a reset by `script_name` clears `script`: every script where no name
/// is given, else the scripts of that name.
pub open spec fn is_reset(script: Script, script_name: Option<String>) -> bool {
    match script_name {
        Some(name) => script.name@ == name@,
        None => true,
    }
}

/// Clears the record of the named script, or of all scripts where no name is
/// given.
pub fn reset_state(config: &mut Config, script_name: Option<String>)
    ensures
        final(config).scripts@.len() == old(config).scripts@.len(),
        forall|i: int|
            0 <= i < old(config).scripts@.len() ==> #[trigger] final(config).scripts@[i] == if is_reset(
                old(config).scripts@[i],
                script_name,
            ) {
                cleared(old(config).scripts@[i])
            } else {
                old(config).scripts@[i]
            },
{
    let mut index: usize = 0;
    while index < config.scripts.len()
        invariant
            index <= config.scripts@.len(),
            config.scripts@.len() == old(config).scripts@.len(),
            forall|i: int|
                0 <= i < index ==> #[trigger] config.scripts@[i] == if is_reset(
                    old(config).scripts@[i],
                    script_name,
                ) {
                    cleared(old(config).scripts@[i])
                } else {
                    old(config).scripts@[i]
                },
            forall|i: int|
                index <= i < config.scripts@.len() ==> #[trigger] config.scripts@[i] == old(
                    config,
                ).scripts@[i],
        decreases config.scripts@.len() - index,
    {
        let reset: bool = match &script_name {
            Some(name) => config.scripts[index].name == *name,
            None => true,
        };
        if reset {
            config.scripts[index].results = ThompsonInfo { interesting: 0, uninteresting: 0 };
            config.scripts[index].runcount = 0;
            config.scripts[index].avgruntime_ms = None;
        }
        index += 1;
    }
}

/// What a finished run counts as. A run that succeeded is uninteresting, one
/// that failed with exit code 1 is interesting, and any other counts as neither.
pub fn script_result(success: bool, code: Option<i32>, runtime_ms: u128) -> (r: ScriptResult)
    ensures
        r.runtime_ms == runtime_ms,
        r.interesting == if !success && code == Some(1i32) {
            1u64
        } else {
            0u64
        },
        r.uninteresting == if success {
            1u64
        } else {
            0u64
        },
{
    if success {
        ScriptResult { interesting: 0, uninteresting: 1, runtime_ms }
    } else {
        match code {
            Some(1) => ScriptResult { interesting: 1, uninteresting: 0, runtime_ms },
            _ => ScriptResult { interesting: 0, uninteresting: 0, runtime_ms },
        }
    }
}

/// Records one run: the outcome is added to the counts, the run is counted, and
/// `avgruntime_ms`, the mean runtime over all runs with this one, is stored.
/// No count ever decreases.
pub fn update_state(existing_results: &mut Script, result: ScriptResult, avgruntime_ms: NotNan)
    requires
        old(existing_results).results.interesting + result.interesting <= u64::MAX,
        old(existing_results).results.uninteresting + result.uninteresting <= u64::MAX,
        old(existing_results).runcount < u64::MAX,
    ensures
        *final(existing_results) == (Script {
            results: ThompsonInfo {
                interesting: (old(existing_results).results.interesting + result.interesting) as u64,
                uninteresting: (old(existing_results).results.uninteresting
                    + result.uninteresting) as u64,
            },
            runcount: (old(existing_results).runcount + 1) as u64,
            avgruntime_ms: Some(avgruntime_ms),
            ..*old(existing_results)
        }),
        final(existing_results).results.interesting >= old(existing_results).results.interesting,
        final(existing_results).results.uninteresting >= old(
            existing_results,
        ).results.uninteresting,
{
    let results = ThompsonInfo {
        interesting: existing_results.results.interesting + result.interesting,
        uninteresting: existing_results.results.uninteresting + result.uninteresting,
    };
    existing_results.runcount += 1;
    existing_results.avgruntime_ms = Some(avgruntime_ms);
    existing_results.results = results;
}

/// `i` is the place of the only `=` in `s`.
pub open spec fn splits_at(s: Seq<char>, i: int) -> bool {
    &&& 0 <= i < s.len()
    &&& s[i] == '='
    &&& forall|j: int| 0 <= j < s.len() && j != i ==> s[j] != '='
}

/// Splits `key=value` into the key and the value. A text with no `=`, or with
/// more than one, is refused.
pub fn parse_mapping(s: &str) -> (r: Result<(String, String), String>)
    ensures
        match r {
            Ok(pair) => exists|i: int|
                splits_at(s@, i) && pair.0@ == s@.subrange(0, i) && pair.1@ == s@.subrange(
                    i + 1,
                    s@.len() as int,
                ),
            Err(message) => (forall|i: int| !splits_at(s@, i)) && message@
                == "Mapping should be in the format key=value"@,
        },
{
    let length: usize = s.unicode_len();
    let mut separator: Option<usize> = None;
    let mut repeated: bool = false;
    let mut index: usize = 0;
    while index < length
        invariant
            index <= length,
            length == s@.len(),
            match separator {
                Some(i) => i < index && s@[i as int] == '=' && (repeated <==> exists|j: int|
                    i < j < index && s@[j] == '='),
                None => !repeated && forall|j: int| 0 <= j < index ==> s@[j] != '=',
            },
            separator is Some ==> forall|j: int| 0 <= j < separator->Some_0 ==> s@[j] != '=',
        decreases length - index,
    {
        if s.get_char(index) == '=' {
            if separator.is_some() {
                repeated = true;
            } else {
                separator = Some(index);
            }
        }
        index += 1;
    }
    match separator {
        Some(i) => {
            if repeated {
                Err("Mapping should be in the format key=value".to_owned())
            } else {
                assert(splits_at(s@, i as int));
                Ok((s.substring_char(0, i).to_owned(), s.substring_char(i + 1, length).to_owned()))
            }
        },
        None => Err("Mapping should be in the format key=value".to_owned()),
    }
}

/// Whether a script takes part in the choice of the next run: it has no limit,
/// or its interesting outcomes exceed the limit.
pub open spec fn is_eligible(script: Script) -> bool {
    match script.limit {
        Some(limit) => limit < script.results.interesting,
        None => true,
    }
}

/// The scripts that take part, in the order of the roster.
pub open spec fn eligible(scripts: Seq<Script>) -> Seq<Script> {
    scripts.filter(|script: Script| is_eligible(script))
}

/// What the choice knows of one arm.
#[derive(Debug, Clone, Copy)]
pub struct Arm {
    /// The outcomes counted for the script.
    pub results: ThompsonInfo,
    /// The mean runtime of the script, if it has run.
    pub runtime: Option<NotNan>,
    /// The bias of the script that stands at the arm's place in the roster.
    pub bias: NotNan,
}

/// The arms of a roster: one for each script that takes part, in their order.
pub open spec fn arms_of(scripts: Seq<Script>) -> Seq<Arm> {
    Seq::new(
        eligible(scripts).len(),
        |k: int|
            Arm {
                results: eligible(scripts)[k].results,
                runtime: eligible(scripts)[k].avgruntime_ms,
                bias: scripts[k].bias,
            },
    )
}

/// The runtimes of the arms.
pub open spec fn runtimes_of(arms: Seq<Arm>) -> Seq<Option<NotNan>> {
    Seq::new(arms.len(), |k: int| arms[k].runtime)
}

/// The arms among which the next run is chosen.
pub fn arms(config: &Config) -> (r: Vec<Arm>)
    ensures
        r@ == arms_of(config.scripts@),
{
    let ghost scripts = config.scripts@;
    let mut arms: Vec<Arm> = Vec::new();
    let mut index: usize = 0;
    while index < config.scripts.len()
        invariant
            index <= config.scripts@.len(),
            scripts == config.scripts@,
            arms@.len() == eligible(scripts.take(index as int)).len(),
            arms@.len() <= index,
            forall|k: int|
                0 <= k < arms@.len() ==> #[trigger] arms@[k] == (Arm {
                    results: eligible(scripts.take(index as int))[k].results,
                    runtime: eligible(scripts.take(index as int))[k].avgruntime_ms,
                    bias: scripts[k].bias,
                }),
        decreases config.scripts@.len() - index,
    {
        let script = &config.scripts[index];
        let takes_part: bool = match script.limit {
            Some(limit) => limit < script.results.interesting,
            None => true,
        };
        proof {
            let next = scripts.take(index + 1);
            assert(next.drop_last() =~= scripts.take(index as int));
            assert(next.last() == scripts[index as int]);
            reveal(Seq::filter);
        }
        if takes_part {
            let bias: NotNan = config.scripts[arms.len()].bias;
            arms.push(Arm { results: script.results, runtime: script.avgruntime_ms, bias });
        }
        index += 1;
    }
    assert(scripts.take(index as int) =~= scripts);
    assert(arms@ =~= arms_of(scripts));
    arms
}

/// Chooses the arm to run next from one weighted percentile for each arm; with
/// `ignore_runtime` the runtimes play no part.
pub fn choose_script(config: &Config, ignore_runtime: bool, percentiles: &[NotNan]) -> (choice:
    Option<usize>)
    requires
        percentiles@.len() == arms_of(config.scripts@).len(),
    ensures
        is_selection(
            if ignore_runtime {
                scores(percentiles@)
            } else {
                skewed_scores(percentiles@, runtimes_of(arms_of(config.scripts@)))
            },
            choice,
        ),
{
    if ignore_runtime {
        thompson_sampling(percentiles)
    } else {
        let arms = arms(config);
        let mut runtimes: Vec<Option<NotNan>> = Vec::new();
        let mut index: usize = 0;
        while index < arms.len()
            invariant
                index <= arms@.len(),
                runtimes@.len() == index,
                forall|k: int| 0 <= k < index ==> #[trigger] runtimes@[k] == arms@[k].runtime,
            decreases arms@.len() - index,
        {
            runtimes.push(arms[index].runtime);
            index += 1;
        }
        assert(runtimes@ =~= runtimes_of(arms@));
        thompson_sampling_bias_runtime(percentiles, runtimes.as_slice())
    }
}

/// What can be amiss with a script of the roster.
#[derive(Debug, Clone, Copy, PartialEq, Eq, Structural)]
pub enum Lint {
    /// The bias is zero: the script runs only after all others reach their limit.
    ZeroBias,
    /// The bias is zero and an earlier script has bias zero too: the two are not
    /// ranked against each other.
    RepeatedZeroBias,
    /// The bias is negative: it rewards a script for taking more time.
    NegativeBias,
    /// The limit is zero: the script never runs.
    ZeroLimit,
}

/// One thing amiss, and the place of the script in the roster.
#[derive(Debug, Clone, Copy, PartialEq, Eq, Structural)]
pub struct Finding {
    pub script: usize,
    pub lint: Lint,
}

/// Whether a script before `upto` has bias zero.
pub open spec fn zero_bias_before(scripts: Seq<Script>, upto: int) -> bool {
    exists|j: int| 0 <= j < upto && (#[trigger] scripts[j]).bias@ == 0
}

/// The findings on the script at `index`, in the order in which they are told.
pub open spec fn findings_at(scripts: Seq<Script>, index: int) -> Seq<Finding> {
    let script = scripts[index];
    let at = index as usize;
    let zero = if script.bias@ == 0 {
        if zero_bias_before(scripts, index) {
            seq![
                Finding { script: at, lint: Lint::ZeroBias },
                Finding { script: at, lint: Lint::RepeatedZeroBias },
            ]
        } else {
            seq![Finding { script: at, lint: Lint::ZeroBias }]
        }
    } else {
        seq![]
    };
    let negative = if script.bias@ < 0 {
        seq![Finding { script: at, lint: Lint::NegativeBias }]
    } else {
        seq![]
    };
    let limit = if script.limit == Some(0u64) {
        seq![Finding { script: at, lint: Lint::ZeroLimit }]
    } else {
        seq![]
    };
    zero + negative + limit
}

/// The findings on the scripts before `upto`, in the order of the roster.
pub open spec fn findings(scripts: Seq<Script>, upto: int) -> Seq<Finding>
    decreases upto,
{
    if upto <= 0 {
        seq![]
    } else {
        findings(scripts, upto - 1) + findings_at(scripts, upto - 1)
    }
}

/// Goes through the roster and tells what is amiss with each script.
pub fn lint(config: &Config) -> (r: Vec<Finding>)
    ensures
        r@ == findings(config.scripts@, config.scripts@.len() as int),
{
    let ghost scripts = config.scripts@;
    let zero = NotNan::zero();
    let mut found: Vec<Finding> = Vec::new();
    let mut seen_zero: bool = false;
    let mut index: usize = 0;
    while index < config.scripts.len()
        invariant
            index <= config.scripts@.len(),
            scripts == config.scripts@,
            zero@ == 0,
            seen_zero == zero_bias_before(scripts, index as int),
            found@ == findings(scripts, index as int),
        decreases config.scripts@.len() - index,
    {
        let script = &config.scripts[index];
        let ghost before = found@;
        if script.bias.equals(&zero) {
            found.push(Finding { script: index, lint: Lint::ZeroBias });
            if seen_zero {
                found.push(Finding { script: index, lint: Lint::RepeatedZeroBias });
            }
            seen_zero = true;
        }
        if script.bias.lt(&zero) {
            found.push(Finding { script: index, lint: Lint::NegativeBias });
        }
        match script.limit {
            Some(0) => {
                found.push(Finding { script: index, lint: Lint::ZeroLimit });
            },
            _ => {},
        }
        assert(found@ =~= before + findings_at(scripts, index as int));
        assert(seen_zero == zero_bias_before(scripts, index + 1)) by {
            if zero_bias_before(scripts, index + 1) {
                let j = choose|j: int| 0 <= j < index + 1 && (#[trigger] scripts[j]).bias@ == 0;
                if j < index {
                    assert(zero_bias_before(scripts, index as int));
                }
            }
            if zero_bias_before(scripts, index as int) {
                let j = choose|j: int| 0 <= j < index && (#[trigger] scripts[j]).bias@ == 0;
                assert(0 <= j < index + 1 && scripts[j].bias@ == 0);
            }
        }
        index += 1;
    }
    found
}

} // verus!
