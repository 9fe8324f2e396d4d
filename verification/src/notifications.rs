//! Notifications shown to the player, and their text.

use vstd::prelude::*;

verus! {

/// What a notification reports.
#[derive(Clone, Debug, PartialEq, Eq)]
pub enum NotificationKind {
    ResearchCompleted { name: String },
    BuildingUnlocked { name: String },
    Warning { message: String },
    Info { message: String },
}

/// The text shown for a notification.
pub open spec fn notification_text(k: NotificationKind) -> Seq<char> {
    match k {
        NotificationKind::ResearchCompleted { name } => "Research completed: "@ + name@,
        NotificationKind::BuildingUnlocked { name } => "Unlocked: "@ + name@,
        NotificationKind::Warning { message } => "Warning: "@ + message@,
        NotificationKind::Info { message } => message@,
    }
}

impl NotificationKind {
    /// The text shown for a notification of this kind.
    pub fn text(&self) -> (r: String)
        ensures
            r@ == notification_text(*self),
    {
        match self {
            NotificationKind::ResearchCompleted { name } => {
                let mut s = String::from_str("Research completed: ");
                s.append(name.as_str());
                s
            },
            NotificationKind::BuildingUnlocked { name } => {
                let mut s = String::from_str("Unlocked: ");
                s.append(name.as_str());
                s
            },
            NotificationKind::Warning { message } => {
                let mut s = String::from_str("Warning: ");
                s.append(message.as_str());
                s
            },
            NotificationKind::Info { message } => message.clone(),
        }
    }
}

} // verus!
