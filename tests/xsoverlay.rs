use xsoverlay_vrc_notifier::xsoverlay::{MessageType, NotificationType};

#[test]
fn message_type_codes() {
    assert_eq!(MessageType::NotificationPopup.code(), 1);
    assert_eq!(MessageType::MediaPlayerInformation.code(), 2);
}

#[test]
fn notification_type_wire_names() {
    assert_eq!(NotificationType::Default.wire_name(), "default");
    assert_eq!(NotificationType::Error.wire_name(), "error");
    assert_eq!(NotificationType::Warning.wire_name(), "warning");
    assert_eq!(NotificationType::Custom("a.ogg".to_owned()).wire_name(), "a.ogg");
}
