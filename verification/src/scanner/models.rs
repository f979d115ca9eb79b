//! What scanning detects and recommends.
use vstd::prelude::*;

verus! {

/// How a technology was detected.
#[derive(Debug, Clone, Copy, PartialEq, Eq)]
pub enum DetectionSource {
    Deterministic,
    Ai,
    Both,
}

/// Confidence level for a detection or recommendation, ordered
/// `Low < Medium < High`.
#[derive(Debug, Clone, Copy, PartialEq, Eq, PartialOrd, Ord, Hash)]
pub enum Confidence {
    Low,
    Medium,
    High,
}

/// The rank of a confidence level: 0, 1, 2 from low to high.
pub open spec fn confidence_rank(c: Confidence) -> int {
    match c {
        Confidence::Low => 0,
        Confidence::Medium => 1,
        Confidence::High => 2,
    }
}

impl Confidence {
    /// The confidence's rank: 0 for low, 1 for medium, 2 for high.
    pub fn rank(&self) -> (r: u8)
        ensures
            r == confidence_rank(*self),
    {
        match self {
            Confidence::Low => 0,
            Confidence::Medium => 1,
            Confidence::High => 2,
        }
    }

    /// `+`, `++` or `+++` by confidence.
    pub fn as_indicator(&self) -> (r: &'static str)
        ensures
            r@ == match *self {
                Confidence::Low => "+"@,
                Confidence::Medium => "++"@,
                Confidence::High => "+++"@,
            },
    {
        match self {
            Confidence::Low => "+",
            Confidence::Medium => "++",
            Confidence::High => "+++",
        }
    }

    /// Whether `self` is at least as high as `other`.
    pub fn at_least(&self, other: &Confidence) -> (r: bool)
        ensures
            r == (confidence_rank(*self) >= confidence_rank(*other)),
    {
        self.rank() >= other.rank()
    }
}

/// Ranks are distinct: confidence levels are ordered totally by rank.
pub proof fn lemma_confidence_rank_injective(a: Confidence, b: Confidence)
    ensures
        confidence_rank(a) == confidence_rank(b) <==> a == b,
        0 <= confidence_rank(a) <= 2,
{
}

/// A technology detected in the project.
#[derive(Debug, Clone)]
pub struct DetectedTech {
    pub name: String,
    pub category: String,
    pub evidence: Vec<String>,
    pub source: DetectionSource,
    pub confidence: Confidence,
    pub version: Option<String>,
}

/// A skill recommendation produced by scanning.
#[derive(Debug, Clone)]
pub struct SkillRecommendation {
    pub skill_id: String,
    pub name: String,
    pub description: String,
    pub phase: String,
    pub confidence: Confidence,
    pub reason: String,
    pub installed: bool,
    pub matched_techs: Vec<String>,
}

/// Complete scan result; `scanned_at` is an RFC 3339 timestamp.
#[derive(Debug, Clone)]
pub struct ScanResult {
    pub project_root: String,
    pub detected_techs: Vec<DetectedTech>,
    pub recommendations: Vec<SkillRecommendation>,
    pub ai_analysis_used: bool,
    pub scanned_at: String,
}

/// Top-level output of the AI codebase analysis.
#[derive(Debug, Clone)]
pub struct AiAnalysisOutput {
    pub technologies: Vec<AiDetectedTech>,
}

/// A technology detected by the AI analysis.
#[derive(Debug, Clone)]
pub struct AiDetectedTech {
    pub name: String,
    pub category: String,
    pub confidence: Confidence,
    pub evidence: Vec<String>,
}

/// The AI's deep dive into one technology.
#[derive(Debug, Clone)]
pub struct AiTechDeepDive {
    pub technology: String,
    pub recommended_skills: Vec<AiSkillRecommendation>,
}

/// A skill recommendation from the AI deep dive.
#[derive(Debug, Clone)]
pub struct AiSkillRecommendation {
    pub skill_id: String,
    pub confidence: Confidence,
    pub reason: String,
}

} // verus!
