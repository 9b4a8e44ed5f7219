//! What a thread's turn history reports of its turns.
use crate::text::{same_text, text_view};
use vstd::prelude::*;

verus! {

#[derive(Clone, Copy, PartialEq, Eq, Structural, Debug)]
pub enum TurnStatus {
    InProgress,
    Completed,
    Interrupted,
    Failed,
}

/// The latest turn of a thread.
#[derive(Debug, PartialEq, Eq)]
pub struct LatestTurn {
    pub id: String,
    pub status: TurnStatus,
}

/// A report of the turn history, taken after an event was entered in it.
#[derive(Debug, PartialEq, Eq)]
pub struct TurnReport {
    pub latest: Option<LatestTurn>,
    pub has_active_turn: bool,
}

pub struct TurnReportView {
    pub latest: Option<(Seq<char>, TurnStatus)>,
    pub has_active_turn: bool,
}

impl View for TurnReport {
    type V = TurnReportView;

    open spec fn view(&self) -> TurnReportView {
        TurnReportView {
            latest: match self.latest {
                Some(t) => Some((t.id@, t.status)),
                None => None,
            },
            has_active_turn: self.has_active_turn,
        }
    }
}

/// The report of a history without turns.
pub open spec fn no_turns() -> TurnReportView {
    TurnReportView { latest: None, has_active_turn: false }
}

impl TurnReportView {
    /// Whether a turn is the latest one and in progress.
    pub open spec fn runs(self, turn_id: Seq<char>) -> bool {
        self.latest == Some((turn_id, TurnStatus::InProgress))
    }

    /// Whether the latest turn, in any status, is the one that a card belongs to.
    pub open spec fn is_latest(self, card_turn: Option<Seq<char>>) -> bool {
        match self.latest {
            Some((id, _)) => card_turn == Some(id),
            None => false,
        }
    }
}

impl TurnReport {
    pub fn none() -> (r: Self)
        ensures
            r@ == no_turns(),
    {
        TurnReport { latest: None, has_active_turn: false }
    }

    pub fn runs(&self, turn_id: &str) -> (r: bool)
        ensures
            r == self@.runs(turn_id@),
    {
        match &self.latest {
            Some(t) => same_text(t.id.as_str(), turn_id) && t.status == TurnStatus::InProgress,
            None => false,
        }
    }

    pub fn is_latest(&self, card_turn: &Option<String>) -> (r: bool)
        ensures
            r == self@.is_latest(text_view(*card_turn)),
    {
        match (&self.latest, card_turn) {
            (Some(t), Some(id)) => t.id == *id,
            _ => false,
        }
    }
}

} // verus!
