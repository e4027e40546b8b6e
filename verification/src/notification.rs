//! Building the notifications the agent raises. Delivery — appending to
//! the notification log and popping the system dialog — is the hosting
//! process's job; here each notification's level, message and service tag
//! are fixed exactly.

use vstd::prelude::*;

use crate::textscan::{join_seq, join_strs};

verus! {

/// One notification, ready for delivery.
pub struct Notification {
    pub timestamp: String,
    pub level: String,
    pub message: String,
    pub service: String,
}

/// Builds notifications; stateless.
pub struct NotificationSystem;

/// Relies on `chrono::Utc::now` and `DateTime::to_rfc3339` for a
/// notification's timestamp text; nothing is assumed about its value.
#[verifier::external_body]
fn now_rfc3339() -> String {
    chrono::Utc::now().to_rfc3339()
}

impl NotificationSystem {
    pub fn new() -> (r: Self) {
        Self
    }

    /// The start-of-service notification: informational, fixed message.
    pub fn start_notification(&self) -> (n: Notification)
        ensures
            n.level@ == "INFO"@,
            n.message@ == "Monitoring service started"@,
            n.service@ == "MonitorSystemOPs"@,
    {
        Notification {
            timestamp: now_rfc3339(),
            level: String::from_str("INFO"),
            message: String::from_str("Monitoring service started"),
            service: String::from_str("MonitorSystemOPs"),
        }
    }

    /// The stop-of-service notification: informational, fixed message.
    pub fn stop_notification(&self) -> (n: Notification)
        ensures
            n.level@ == "INFO"@,
            n.message@ == "Monitoring service stopped"@,
            n.service@ == "MonitorSystemOPs"@,
    {
        Notification {
            timestamp: now_rfc3339(),
            level: String::from_str("INFO"),
            message: String::from_str("Monitoring service stopped"),
            service: String::from_str("MonitorSystemOPs"),
        }
    }

    /// An error notification: the error text behind a fixed prefix.
    pub fn error_notification(&self, error: &str) -> (n: Notification)
        ensures
            n.level@ == "ERROR"@,
            n.message@ == "Error: "@ + error@,
            n.service@ == "MonitorSystemOPs"@,
    {
        let mut message = String::from_str("Error: ");
        message.append(error);
        Notification {
            timestamp: now_rfc3339(),
            level: String::from_str("ERROR"),
            message,
            service: String::from_str("MonitorSystemOPs"),
        }
    }

    /// The anomaly notification: nothing when no warnings were raised,
    /// otherwise a warning joining the texts with `"; "` behind a fixed
    /// prefix.
    pub fn anomaly_notification(&self, anomalies: &Vec<String>) -> (r: Option<Notification>)
        ensures
            anomalies@.len() == 0 <==> r is None,
            r matches Some(n) ==> {
                &&& n.level@ == "WARNING"@
                &&& n.message@ == "Anomalies detected: "@ + join_seq(anomalies.deep_view(), "; "@)
                &&& n.service@ == "MonitorSystemOPs"@
            },
    {
        if anomalies.len() == 0 {
            return None;
        }
        let joined = join_strs(anomalies, "; ");
        let mut message = String::from_str("Anomalies detected: ");
        message.append(joined.as_str());
        Some(
            Notification {
                timestamp: now_rfc3339(),
                level: String::from_str("WARNING"),
                message,
                service: String::from_str("MonitorSystemOPs"),
            },
        )
    }
}

} // verus!
