//! The judgment classifier: a pure, total map from a signed time delta
//! (milliseconds between the press and the beat's scheduled moment) to one of
//! five discrete accuracy tiers, each with a fixed point value.

use vstd::prelude::*;

verus! {

/// Discrete accuracy classification of a hit attempt, best to worst.
#[derive(Clone, Copy, Debug, PartialEq, Eq, Structural)]
pub enum JudgmentTier {
    Perfect,
    Good,
    Okay,
    Meh,
    Miss,
}

/// Magnitude of a signed delta.
pub open spec fn abs_ms(d: int) -> int {
    if d < 0 {
        -d
    } else {
        d
    }
}

/// Which tier a signed delta falls in: half-open windows on the magnitude,
/// in milliseconds. Only the magnitude matters; the sign carries no
/// information here.
pub open spec fn classify_spec(d: int) -> JudgmentTier {
    let m = abs_ms(d);
    if m < 15 {
        JudgmentTier::Perfect
    } else if m < 30 {
        JudgmentTier::Good
    } else if m < 50 {
        JudgmentTier::Okay
    } else if m < 100 {
        JudgmentTier::Meh
    } else {
        JudgmentTier::Miss
    }
}

/// Point value a tier awards to the running score.
pub open spec fn points_spec(t: JudgmentTier) -> int {
    match t {
        JudgmentTier::Perfect => 100,
        JudgmentTier::Good => 50,
        JudgmentTier::Okay => 25,
        JudgmentTier::Meh => 10,
        JudgmentTier::Miss => 0,
    }
}

/// Severity rank of a tier: Perfect is best (0), Miss is worst (4).
pub open spec fn severity_spec(t: JudgmentTier) -> int {
    match t {
        JudgmentTier::Perfect => 0,
        JudgmentTier::Good => 1,
        JudgmentTier::Okay => 2,
        JudgmentTier::Meh => 3,
        JudgmentTier::Miss => 4,
    }
}

/// On-screen label for a tier.
pub open spec fn label_spec(t: JudgmentTier) -> Seq<char> {
    match t {
        JudgmentTier::Perfect => "Perfect!"@,
        JudgmentTier::Good => "Good!"@,
        JudgmentTier::Okay => "Okay!"@,
        JudgmentTier::Meh => "Meh!"@,
        JudgmentTier::Miss => "Miss!"@,
    }
}

/// Classify a signed delta in milliseconds. Total over every `i64`,
/// including the extremes, where the magnitude is far past every window and
/// the tier is Miss.
pub fn classify(delta_ms: i64) -> (t: JudgmentTier)
    ensures
        t == classify_spec(delta_ms as int),
{
    if -15 < delta_ms && delta_ms < 15 {
        JudgmentTier::Perfect
    } else if -30 < delta_ms && delta_ms < 30 {
        JudgmentTier::Good
    } else if -50 < delta_ms && delta_ms < 50 {
        JudgmentTier::Okay
    } else if -100 < delta_ms && delta_ms < 100 {
        JudgmentTier::Meh
    } else {
        JudgmentTier::Miss
    }
}

impl JudgmentTier {
    /// Point value of this tier as an executable quantity.
    pub fn points(&self) -> (p: i64)
        ensures
            p == points_spec(*self),
    {
        match self {
            JudgmentTier::Perfect => 100,
            JudgmentTier::Good => 50,
            JudgmentTier::Okay => 25,
            JudgmentTier::Meh => 10,
            JudgmentTier::Miss => 0,
        }
    }

    /// On-screen label for this tier.
    pub fn label(&self) -> (s: String)
        ensures
            s@ == label_spec(*self),
    {
        match self {
            JudgmentTier::Perfect => "Perfect!".to_owned(),
            JudgmentTier::Good => "Good!".to_owned(),
            JudgmentTier::Okay => "Okay!".to_owned(),
            JudgmentTier::Meh => "Meh!".to_owned(),
            JudgmentTier::Miss => "Miss!".to_owned(),
        }
    }
}

/// Law: classification is symmetric around zero — only the magnitude of the
/// delta selects the tier.
pub proof fn lemma_classify_symmetric(d: int)
    ensures
        classify_spec(d) == classify_spec(-d),
{
}

/// Law: classification is monotonic in the magnitude — as the delta moves
/// farther from zero, the tier's severity never improves.
pub proof fn lemma_classify_monotonic(d1: int, d2: int)
    requires
        abs_ms(d1) <= abs_ms(d2),
    ensures
        severity_spec(classify_spec(d1)) <= severity_spec(classify_spec(d2)),
{
}

} // verus!
