//! The parts of the notification payload that are plain values.

use vstd::prelude::*;

verus! {

/// The kind of message sent to the overlay.
#[derive(Debug, Clone, Copy, PartialEq, Eq, Structural)]
pub enum MessageType {
    NotificationPopup,
    MediaPlayerInformation,
}

impl MessageType {
    /// The number that stands for this kind on the wire.
    pub fn code(&self) -> (r: u8)
        ensures
            r == match self {
                MessageType::NotificationPopup => 1u8,
                MessageType::MediaPlayerInformation => 2u8,
            },
    {
        match self {
            MessageType::NotificationPopup => 1,
            MessageType::MediaPlayerInformation => 2,
        }
    }
}

/// A sound or icon of a notification: one of the overlay's own, or a custom
/// one named by a path or an encoded image.
#[derive(Debug, Clone, PartialEq, Eq)]
pub enum NotificationType {
    Default,
    Error,
    Warning,
    Custom(String),
}

impl NotificationType {
    /// The string that stands for this value on the wire.
    pub fn wire_name(&self) -> (r: String)
        ensures
            r@ == match self {
                NotificationType::Default => "default"@,
                NotificationType::Error => "error"@,
                NotificationType::Warning => "warning"@,
                NotificationType::Custom(v) => v@,
            },
    {
        match self {
            NotificationType::Default => "default".to_owned(),
            NotificationType::Error => "error".to_owned(),
            NotificationType::Warning => "warning".to_owned(),
            NotificationType::Custom(v) => v.clone(),
        }
    }
}

} // verus!
