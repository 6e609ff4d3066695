//! The judging state machine for prediction tasks, and the parts of rule
//! evaluation that decide on text: which data series a rule reads, how its
//! direction or comparison words are read, and keyword rules on fetched pages.
use vstd::prelude::*;

use crate::text::{contains_seq, contains_str, str_equal, string_views};

verus! {

/// Whose prediction a rule belongs to.
#[derive(Clone, Copy, Debug, PartialEq, Eq, Structural)]
pub enum Agent {
    Human,
    Llm,
}

/// What came of evaluating one prediction's inference rule.
#[derive(Clone, Copy, Debug, PartialEq, Eq, Structural)]
pub enum Evaluation {
    /// The rule evaluated to true.
    Satisfied,
    /// The rule evaluated to false.
    NotSatisfied,
    /// Fetching the data the rule needs failed.
    Failed,
    /// The stored rule is not a valid rule.
    Unparsable,
}

/// What the judge does to a task after one evaluation.
#[derive(Clone, Copy, Debug, PartialEq, Eq, Structural)]
pub enum JudgeAction {
    /// Set that agent's outcome to 1, mark the task resolved and stamp it verified.
    Confirm,
    /// Leave the task as it is.
    Keep,
    /// Mark the task `failed_api`.
    MarkFailedApi,
}

/// The judge status column of a prediction task.
#[derive(Clone, Copy, Debug, PartialEq, Eq, Structural)]
pub enum JudgeStatus {
    Pending,
    Resolved,
    FailedApi,
}

/// The columns of a prediction task that judging reads and writes.
#[derive(Clone, Copy, Debug, PartialEq, Eq, Structural)]
pub struct TaskState {
    pub outcome_human: Option<i32>,
    pub outcome_llm: Option<i32>,
    pub status: JudgeStatus,
    pub verified: bool,
}

pub open spec fn spec_judge_action(eval: Evaluation) -> JudgeAction {
    match eval {
        Evaluation::Satisfied => JudgeAction::Confirm,
        Evaluation::NotSatisfied => JudgeAction::Keep,
        Evaluation::Failed => JudgeAction::MarkFailedApi,
        Evaluation::Unparsable => JudgeAction::MarkFailedApi,
    }
}

pub open spec fn spec_apply_action(task: TaskState, agent: Agent, action: JudgeAction) -> TaskState {
    match action {
        JudgeAction::Confirm => match agent {
            Agent::Human => TaskState {
                outcome_human: Some(1),
                status: JudgeStatus::Resolved,
                verified: true,
                ..task
            },
            Agent::Llm => TaskState {
                outcome_llm: Some(1),
                status: JudgeStatus::Resolved,
                verified: true,
                ..task
            },
        },
        JudgeAction::Keep => task,
        JudgeAction::MarkFailedApi => TaskState { status: JudgeStatus::FailedApi, ..task },
    }
}

/// One round of active judging: the human rule first, then the LLM rule.
pub open spec fn spec_judge_task(task: TaskState, human: Evaluation, llm: Evaluation) -> TaskState {
    let after_human = spec_apply_action(task, Agent::Human, spec_judge_action(human));
    spec_apply_action(after_human, Agent::Llm, spec_judge_action(llm))
}

/// What the judge does after an evaluation: confirm when the rule holds, keep
/// the task when it does not, and mark it `failed_api` when the data could not
/// be fetched or the rule could not be read.
pub fn judge_action(eval: Evaluation) -> (r: JudgeAction)
    ensures
        r == spec_judge_action(eval),
{
    match eval {
        Evaluation::Satisfied => JudgeAction::Confirm,
        Evaluation::NotSatisfied => JudgeAction::Keep,
        Evaluation::Failed => JudgeAction::MarkFailedApi,
        Evaluation::Unparsable => JudgeAction::MarkFailedApi,
    }
}

/// The task after `action` was taken for `agent`'s prediction.
pub fn apply_action(task: TaskState, agent: Agent, action: JudgeAction) -> (r: TaskState)
    ensures
        r == spec_apply_action(task, agent, action),
{
    match action {
        JudgeAction::Confirm => match agent {
            Agent::Human => TaskState {
                outcome_human: Some(1),
                status: JudgeStatus::Resolved,
                verified: true,
                ..task
            },
            Agent::Llm => TaskState {
                outcome_llm: Some(1),
                status: JudgeStatus::Resolved,
                verified: true,
                ..task
            },
        },
        JudgeAction::Keep => task,
        JudgeAction::MarkFailedApi => TaskState { status: JudgeStatus::FailedApi, ..task },
    }
}

/// The task after one round of active judging, the human rule's evaluation
/// applied before the LLM rule's.
pub fn judge_task(task: TaskState, human: Evaluation, llm: Evaluation) -> (r: TaskState)
    ensures
        r == spec_judge_task(task, human, llm),
{
    let after_human = apply_action(task, Agent::Human, judge_action(human));
    apply_action(after_human, Agent::Llm, judge_action(llm))
}

/// Judging never invents an outcome: an agent's outcome after a round is the
/// one it had, or 1 where that agent's rule was satisfied; and an outcome that
/// was set stays set.
pub proof fn lemma_judging_only_confirms(task: TaskState, human: Evaluation, llm: Evaluation)
    ensures
        ({
            let r = spec_judge_task(task, human, llm);
            &&& r.outcome_human == task.outcome_human || (human == Evaluation::Satisfied
                && r.outcome_human == Some(1i32))
            &&& r.outcome_llm == task.outcome_llm || (llm == Evaluation::Satisfied
                && r.outcome_llm == Some(1i32))
            &&& task.outcome_human is Some ==> r.outcome_human is Some
            &&& task.outcome_llm is Some ==> r.outcome_llm is Some
        }),
{
}

/// Judging a task twice with the same evaluations leaves it as one round did.
pub proof fn lemma_judging_idempotent(task: TaskState, human: Evaluation, llm: Evaluation)
    ensures
        spec_judge_task(spec_judge_task(task, human, llm), human, llm) == spec_judge_task(
            task,
            human,
            llm,
        ),
{
}

/// The status after a round: the LLM rule's evaluation decides unless it is
/// "not satisfied", in which case the human rule's evaluation decides, and
/// where both are "not satisfied" the status is unchanged.
pub proof fn lemma_judged_status(task: TaskState, human: Evaluation, llm: Evaluation)
    ensures
        ({
            let r = spec_judge_task(task, human, llm);
            &&& llm == Evaluation::Satisfied ==> r.status == JudgeStatus::Resolved
            &&& (llm == Evaluation::Failed || llm == Evaluation::Unparsable) ==> r.status
                == JudgeStatus::FailedApi
            &&& (llm == Evaluation::NotSatisfied && human == Evaluation::Satisfied) ==> r.status
                == JudgeStatus::Resolved
            &&& (llm == Evaluation::NotSatisfied && (human == Evaluation::Failed || human
                == Evaluation::Unparsable)) ==> r.status == JudgeStatus::FailedApi
            &&& (llm == Evaluation::NotSatisfied && human == Evaluation::NotSatisfied) ==> r
                == task
        }),
{
}

/// Only a confirmation stamps a task verified or resolves it: keeping a task
/// leaves it exactly as it was, marking it `failed_api` changes its status
/// and nothing else, and confirming sets that agent's outcome to 1, marks the
/// task resolved and verified, and leaves the other agent's outcome alone.
pub proof fn lemma_actions_touch_only_their_columns(task: TaskState, agent: Agent, action: JudgeAction)
    ensures
        ({
            let r = spec_apply_action(task, agent, action);
            &&& action != JudgeAction::Confirm ==> r.verified == task.verified
            &&& action != JudgeAction::Confirm ==> r.outcome_human == task.outcome_human
                && r.outcome_llm == task.outcome_llm
            &&& action == JudgeAction::Keep ==> r == task
            &&& action == JudgeAction::MarkFailedApi ==> r.status == JudgeStatus::FailedApi
            &&& action == JudgeAction::Confirm ==> {
                &&& r.verified
                &&& r.status == JudgeStatus::Resolved
                &&& agent == Agent::Human ==> r.outcome_human == Some(1i32) && r.outcome_llm
                    == task.outcome_llm
                &&& agent == Agent::Llm ==> r.outcome_llm == Some(1i32) && r.outcome_human
                    == task.outcome_human
            }
        }),
{
}

/// After a round of judging, a task is stamped verified exactly when it was
/// already, or when one of its two rules was satisfied; a failed or
/// unreadable rule never stamps it.
pub proof fn lemma_verified_only_by_satisfied_rules(
    task: TaskState,
    human: Evaluation,
    llm: Evaluation,
)
    ensures
        spec_judge_task(task, human, llm).verified == (task.verified || human
            == Evaluation::Satisfied || llm == Evaluation::Satisfied),
{
}

/// The words of an economic-data rule's `operator`: exactly `greater` reads
/// as the strict greater-than test, exactly `less` as the strict less-than
/// test and exactly `equal` as the equality test; every other word reads as
/// no comparison.
pub proof fn lemma_comparison_words(word: Seq<char>)
    ensures
        (spec_comparison(word) == Some(Comparison::Greater)) == (word == "greater"@),
        (spec_comparison(word) == Some(Comparison::Less)) == (word == "less"@),
        (spec_comparison(word) == Some(Comparison::Equal)) == (word == "equal"@),
        spec_comparison(word) is None == (word != "greater"@ && word != "less"@ && word
            != "equal"@),
{
    reveal_strlit("greater");
    reveal_strlit("less");
    reveal_strlit("equal");
    assert("less"@ != "greater"@) by {
        assert("less"@.len() != "greater"@.len());
    }
    assert("equal"@ != "greater"@) by {
        assert("equal"@.len() != "greater"@.len());
    }
    assert("equal"@ != "less"@) by {
        assert("equal"@.len() != "less"@.len());
    }
}

/// The words of a price rule's `direction`: exactly `greater` asks for a
/// change of at least the threshold and exactly `less` for at most; every
/// other word reads as no direction.
pub proof fn lemma_direction_words(word: Seq<char>)
    ensures
        (spec_direction(word) == Some(Direction::AtLeast)) == (word == "greater"@),
        (spec_direction(word) == Some(Direction::AtMost)) == (word == "less"@),
        spec_direction(word) is None == (word != "greater"@ && word != "less"@),
{
    reveal_strlit("greater");
    reveal_strlit("less");
    assert("less"@ != "greater"@) by {
        assert("less"@.len() != "greater"@.len());
    }
}

/// The source words of a rule's actual value: `manual` uses the value written
/// into the rule (an error where it carries none), `api` fetches it, and any
/// other word is an error.
pub proof fn lemma_value_source_words(source: Seq<char>, has_manual: bool)
    ensures
        (spec_value_plan(source, has_manual) == ValuePlan::UseManual) == (source == "manual"@
            && has_manual),
        (spec_value_plan(source, has_manual) == ValuePlan::MissingManual) == (source == "manual"@
            && !has_manual),
        (spec_value_plan(source, has_manual) == ValuePlan::FetchFromApi) == (source == "api"@),
        (spec_value_plan(source, has_manual) == ValuePlan::InvalidSource) == (source != "manual"@
            && source != "api"@),
{
    reveal_strlit("manual");
    reveal_strlit("api");
    assert("api"@ != "manual"@) by {
        assert("api"@.len() != "manual"@.len());
    }
}

/// The FRED series of the supported central banks and indicators: `fomc`
/// reads `FEDFUNDS`, `ecb` reads `ECBASSETSW`, `boj` reads `JPNIRLTR`, `pboc`
/// reads `CHNMLR`, any other bank none; `cpi` reads `CPIAUCSL`, `gdp` reads
/// `GDP`, `nonfarm` reads `PAYEMS`, any other indicator none.
pub proof fn lemma_series_names(bank: Seq<char>, indicator: Seq<char>)
    ensures
        bank == "fomc"@ ==> spec_bank_series(bank) == "FEDFUNDS"@,
        bank == "ecb"@ ==> spec_bank_series(bank) == "ECBASSETSW"@,
        bank == "boj"@ ==> spec_bank_series(bank) == "JPNIRLTR"@,
        bank == "pboc"@ ==> spec_bank_series(bank) == "CHNMLR"@,
        (bank != "fomc"@ && bank != "ecb"@ && bank != "boj"@ && bank != "pboc"@) ==> spec_bank_series(
            bank,
        ).len() == 0,
        indicator == "cpi"@ ==> spec_indicator_series(indicator) == Some("CPIAUCSL"@),
        indicator == "gdp"@ ==> spec_indicator_series(indicator) == Some("GDP"@),
        indicator == "nonfarm"@ ==> spec_indicator_series(indicator) == Some("PAYEMS"@),
        spec_indicator_series(indicator) is None == (indicator != "cpi"@ && indicator != "gdp"@
            && indicator != "nonfarm"@),
{
    reveal_strlit("fomc");
    reveal_strlit("ecb");
    reveal_strlit("boj");
    reveal_strlit("pboc");
    reveal_strlit("");
    reveal_strlit("cpi");
    reveal_strlit("gdp");
    reveal_strlit("nonfarm");
    reveal_strlit("FEDFUNDS");
    reveal_strlit("ECBASSETSW");
    reveal_strlit("JPNIRLTR");
    reveal_strlit("CHNMLR");
    assert("ecb"@ != "fomc"@) by {
        assert("ecb"@.len() != "fomc"@.len());
    }
    assert("boj"@ != "fomc"@) by {
        assert("boj"@.len() != "fomc"@.len());
    }
    assert("boj"@ != "ecb"@) by {
        assert("boj"@[0] != "ecb"@[0]);
    }
    assert("pboc"@ != "fomc"@) by {
        assert("pboc"@[0] != "fomc"@[0]);
    }
    assert("pboc"@ != "ecb"@) by {
        assert("pboc"@.len() != "ecb"@.len());
    }
    assert("pboc"@ != "boj"@) by {
        assert("pboc"@.len() != "boj"@.len());
    }
    assert("gdp"@ != "cpi"@) by {
        assert("gdp"@[0] != "cpi"@[0]);
    }
    assert("nonfarm"@ != "cpi"@) by {
        assert("nonfarm"@.len() != "cpi"@.len());
    }
    assert("nonfarm"@ != "gdp"@) by {
        assert("nonfarm"@.len() != "gdp"@.len());
    }
}

/// The FRED series that a central bank's policy rate is read from, or the
/// empty string for a bank without one.
pub open spec fn spec_bank_series(bank: Seq<char>) -> Seq<char> {
    if bank == "fomc"@ {
        "FEDFUNDS"@
    } else if bank == "ecb"@ {
        "ECBASSETSW"@
    } else if bank == "boj"@ {
        "JPNIRLTR"@
    } else if bank == "pboc"@ {
        "CHNMLR"@
    } else {
        ""@
    }
}

/// The FRED series that a central bank's policy rate is read from; the empty
/// string for a bank the judge does not support.
pub fn bank_to_series_id(bank: &str) -> (r: &'static str)
    ensures
        r@ == spec_bank_series(bank@),
{
    if str_equal(bank, "fomc") {
        "FEDFUNDS"
    } else if str_equal(bank, "ecb") {
        "ECBASSETSW"
    } else if str_equal(bank, "boj") {
        "JPNIRLTR"
    } else if str_equal(bank, "pboc") {
        "CHNMLR"
    } else {
        ""
    }
}

/// The FRED series an economic indicator is read from, where it has one.
pub open spec fn spec_indicator_series(indicator: Seq<char>) -> Option<Seq<char>> {
    if indicator == "cpi"@ {
        Some("CPIAUCSL"@)
    } else if indicator == "gdp"@ {
        Some("GDP"@)
    } else if indicator == "nonfarm"@ {
        Some("PAYEMS"@)
    } else {
        None
    }
}

/// The FRED series an economic indicator is read from; `None` for an
/// indicator the judge does not support.
pub fn indicator_series_id(indicator: &str) -> (r: Option<&'static str>)
    ensures
        match r {
            Some(s) => spec_indicator_series(indicator@) == Some(s@),
            None => spec_indicator_series(indicator@) is None,
        },
{
    if str_equal(indicator, "cpi") {
        Some("CPIAUCSL")
    } else if str_equal(indicator, "gdp") {
        Some("GDP")
    } else if str_equal(indicator, "nonfarm") {
        Some("PAYEMS")
    } else {
        None
    }
}

/// How a price-change rule compares the observed change with its threshold.
#[derive(Clone, Copy, Debug, PartialEq, Eq, Structural)]
pub enum Direction {
    /// Satisfied when the change is at least the threshold.
    AtLeast,
    /// Satisfied when the change is at most the threshold.
    AtMost,
}

pub open spec fn spec_direction(word: Seq<char>) -> Option<Direction> {
    if word == "greater"@ {
        Some(Direction::AtLeast)
    } else if word == "less"@ {
        Some(Direction::AtMost)
    } else {
        None
    }
}

impl Direction {
    /// Reads a rule's `direction` word; `None` for a word under which the rule
    /// is never satisfied.
    pub fn parse(word: &str) -> (r: Option<Direction>)
        ensures
            r == spec_direction(word@),
    {
        if str_equal(word, "greater") {
            Some(Direction::AtLeast)
        } else if str_equal(word, "less") {
            Some(Direction::AtMost)
        } else {
            None
        }
    }
}

/// How an economic-data rule compares the actual value with the expected one.
#[derive(Clone, Copy, Debug, PartialEq, Eq, Structural)]
pub enum Comparison {
    /// Satisfied when the actual value is strictly greater.
    Greater,
    /// Satisfied when the actual value is strictly less.
    Less,
    /// Satisfied when the two differ by less than one millionth.
    Equal,
}

pub open spec fn spec_comparison(word: Seq<char>) -> Option<Comparison> {
    if word == "greater"@ {
        Some(Comparison::Greater)
    } else if word == "less"@ {
        Some(Comparison::Less)
    } else if word == "equal"@ {
        Some(Comparison::Equal)
    } else {
        None
    }
}

impl Comparison {
    /// Reads a rule's `operator` word; `None` for a word under which the rule
    /// is never satisfied.
    pub fn parse(word: &str) -> (r: Option<Comparison>)
        ensures
            r == spec_comparison(word@),
    {
        if str_equal(word, "greater") {
            Some(Comparison::Greater)
        } else if str_equal(word, "less") {
            Some(Comparison::Less)
        } else if str_equal(word, "equal") {
            Some(Comparison::Equal)
        } else {
            None
        }
    }
}

/// Where a rule takes its actual value from.
#[derive(Clone, Copy, Debug, PartialEq, Eq, Structural)]
pub enum ValuePlan {
    /// Use the value written into the rule.
    UseManual,
    /// Fetch the value from the data API.
    FetchFromApi,
    /// The rule asks for a manual value but carries none: an error.
    MissingManual,
    /// The rule names no known source: an error.
    InvalidSource,
}

pub open spec fn spec_value_plan(source: Seq<char>, has_manual: bool) -> ValuePlan {
    if source == "manual"@ {
        if has_manual {
            ValuePlan::UseManual
        } else {
            ValuePlan::MissingManual
        }
    } else if source == "api"@ {
        ValuePlan::FetchFromApi
    } else {
        ValuePlan::InvalidSource
    }
}

/// Where an economic-data or earnings rule takes its actual value from, given
/// its source word and whether it carries a manual value.
pub fn value_plan(source: &str, has_manual: bool) -> (r: ValuePlan)
    ensures
        r == spec_value_plan(source@, has_manual),
{
    if str_equal(source, "manual") {
        if has_manual {
            ValuePlan::UseManual
        } else {
            ValuePlan::MissingManual
        }
    } else if str_equal(source, "api") {
        ValuePlan::FetchFromApi
    } else {
        ValuePlan::InvalidSource
    }
}

/// A keyword rule on a page: with `match_all`, every keyword occurs in the
/// page; otherwise at least one does.
pub open spec fn spec_keywords_match(
    content: Seq<char>,
    keywords: Seq<Seq<char>>,
    match_all: bool,
) -> bool {
    if match_all {
        forall|i: int| 0 <= i < keywords.len() ==> contains_seq(content, #[trigger] keywords[i])
    } else {
        exists|i: int| 0 <= i < keywords.len() && contains_seq(content, #[trigger] keywords[i])
    }
}

/// Whether a page satisfies a keyword rule.
pub fn keywords_match(content: &str, keywords: &Vec<String>, match_all: bool) -> (r: bool)
    ensures
        r == spec_keywords_match(content@, string_views(keywords@), match_all),
{
    let ghost kv = string_views(keywords@);
    let mut i: usize = 0;
    while i < keywords.len()
        invariant
            kv == string_views(keywords@),
            i <= keywords.len(),
            match_all ==> forall|j: int| 0 <= j < i ==> contains_seq(content@, #[trigger] kv[j]),
            !match_all ==> forall|j: int| 0 <= j < i ==> !contains_seq(content@, #[trigger] kv[j]),
        decreases keywords.len() - i,
    {
        let found = contains_str(content, keywords[i].as_str());
        assert(kv[i as int] == keywords@[i as int]@);
        if match_all && !found {
            return false;
        }
        if !match_all && found {
            return true;
        }
        i = i + 1;
    }
    match_all
}

} // verus!
