//! Tracking whether a score process has produced its score.
use vstd::prelude::*;
use crate::process::{Chunks, FfmpegOut, cmd_err, spec_cmd_err};
use crate::text::push_str;

verus! {

/// A score, as the text the analysis printed (a float literal).
#[derive(Debug, Clone, PartialEq)]
pub struct Score(pub String);

/// What one chunk of a score process's output told.
#[derive(Debug, PartialEq)]
pub enum ScoreStreamParse {
    Progress(FfmpegOut),
    LogicalDone(Score),
}

/// Whether the score has been seen.
#[derive(Debug, Clone, PartialEq)]
pub enum LogicalScoreCompletion {
    Pending,
    Done(Score),
}

impl LogicalScoreCompletion {
    /// A score ends the wait; progress leaves the state as it was.
    pub fn record(&mut self, event: &ScoreStreamParse)
        ensures
            match event {
                ScoreStreamParse::LogicalDone(s) => *final(self) matches LogicalScoreCompletion::Done(d) && d.0@ == s.0@,
                ScoreStreamParse::Progress(_) => *final(self) == *old(self),
            },
    {
        if let ScoreStreamParse::LogicalDone(score) = event {
            *self = LogicalScoreCompletion::Done(Score(score.0.clone()));
        }
    }

    /// Whether the score has been seen.
    pub fn is_done(&self) -> (r: bool)
        ensures
            r == (self is Done),
    {
        match self {
            LogicalScoreCompletion::Done(_) => true,
            LogicalScoreCompletion::Pending => false,
        }
    }
}

/// The error of a score process that ended without printing its score.
pub fn missing_score_error(name: &str, cmd_str: &str, stderr: &Chunks) -> (r: String)
    ensures
        r@ == spec_cmd_err("could not parse "@ + name@ + " score"@, cmd_str@, stderr.spec_out()),
{
    let mut msg = String::from_str("could not parse ");
    push_str(&mut msg, name);
    push_str(&mut msg, " score");
    cmd_err(msg.as_str(), cmd_str, stderr)
}

} // verus!
