use meldnafen::bindings::{JoystickConfig, JoystickEvent};
use meldnafen::joystick::JoystickGuid;

fn guid(tag: u8) -> JoystickGuid {
    let mut bytes = [0u8; 16];
    bytes[0] = tag;
    JoystickGuid(bytes)
}

#[test]
fn insert_then_get_returns_mapping() {
    let mut config = JoystickConfig::new();
    let mapping = vec![JoystickEvent::Button(1), JoystickEvent::Unassigned];
    assert!(config.insert(guid(1), 0, "pce".to_string(), mapping.clone()).is_none());
    assert_eq!(config.get(&guid(1), &0, "pce"), Some(&mapping));
    assert!(config.contains_key(&guid(1), &0, "pce"));
    assert!(!config.contains_key(&guid(1), &1, "pce"));
    assert!(!config.contains_key(&guid(2), &0, "pce"));
    assert!(!config.contains_key(&guid(1), &0, "md"));
}

#[test]
fn remove_prunes_empty_levels() {
    let mut config = JoystickConfig::new();
    config.insert(guid(1), 0, "pce".to_string(), vec![JoystickEvent::Button(1)]);
    config.insert(guid(1), 1, "pce".to_string(), vec![JoystickEvent::Button(2)]);
    assert_eq!(config.by_guid().len(), 1);
    assert_eq!(config.by_guid().value_at(0).len(), 2);
    assert_eq!(
        config.remove(guid(1), 1, "pce".to_string()),
        Some(vec![JoystickEvent::Button(2)])
    );
    assert_eq!(config.by_guid().value_at(0).len(), 1);
    assert_eq!(
        config.remove(guid(1), 0, "pce".to_string()),
        Some(vec![JoystickEvent::Button(1)])
    );
    assert_eq!(config.by_guid().len(), 0);
    assert_eq!(config.remove(guid(1), 0, "pce".to_string()), None);
}
