//! Desktop notifications and progress reports requested by programs
//! (OSC 9, OSC 9;4 and OSC 99).

use std::time::Instant;
use vstd::prelude::*;

verus! {

/// Declares `std::time::Instant`, the moment a notification arrived.
#[verifier::external_type_specification]
#[verifier::external_body]
pub struct ExInstant(Instant);

/// Notification from OSC 9 / OSC 99
#[derive(Debug)]
pub struct Notification {
    /// OSC 99 identifier (i= parameter)
    pub id: Option<String>,
    /// Title (OSC 99 p=title / OSC 9 message)
    pub title: String,
    /// Body text (OSC 99 p=body)
    pub body: String,
    /// Urgency: 0=low, 1=normal, 2=critical
    pub urgency: u8,
    /// When the notification was received
    pub timestamp: Instant,
}

/// Progress state from OSC 9;4
#[derive(Debug, Clone, Copy, PartialEq, Eq)]
pub struct NotificationProgress {
    /// 0=stop, 1=normal, 2=error, 3=indeterminate, 4=warning
    pub state: u8,
    /// 0-100 percent
    pub percent: u8,
}

} // verus!
