//! The desktop notification sent when an agent needs attention.

use vstd::prelude::*;
use crate::style::opt_text;

verus! {

/// How urgently the desktop should present a notification.
#[derive(Clone, Copy, Debug, PartialEq, Eq)]
pub enum NotificationPriority {
    Low,
    Normal,
    High,
    Urgent,
}

/// A notification as it is to be sent: the sender's id for it, its title, an
/// optional body, the icon names to try in order, and its priority.
#[derive(Clone, Debug, PartialEq, Eq)]
pub struct NotificationRequest {
    pub id: String,
    pub title: String,
    pub body: Option<String>,
    pub icon_names: Vec<String>,
    pub priority: NotificationPriority,
}

/// The text of an optional string slice.
pub open spec fn opt_str(s: Option<&str>) -> Option<Seq<char>> {
    match s {
        Some(x) => Some(x@),
        None => None,
    }
}

/// The notification for `id`, `title` and `body`: it shows Zed's icon (by its
/// application id, then by its plain name) at normal priority, and carries a
/// body only when one is given.
pub fn notification_request(id: &str, title: &str, body: Option<&str>) -> (r: NotificationRequest)
    ensures
        r.id@ == id@,
        r.title@ == title@,
        opt_text(r.body) == opt_str(body),
        r.icon_names@.len() == 2,
        r.icon_names@[0]@ == "dev.zed.Zed"@,
        r.icon_names@[1]@ == "zed"@,
        r.priority == NotificationPriority::Normal,
{
    let mut icon_names: Vec<String> = Vec::new();
    icon_names.push("dev.zed.Zed".to_owned());
    icon_names.push("zed".to_owned());
    let body = match body {
        Some(b) => Some(b.to_owned()),
        None => None,
    };
    NotificationRequest {
        id: id.to_owned(),
        title: title.to_owned(),
        body,
        icon_names,
        priority: NotificationPriority::Normal,
    }
}

} // verus!
