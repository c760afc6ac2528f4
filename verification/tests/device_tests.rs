use audio_streamer::device::{
    build_device_list, default_device_index, is_virtual_device, str_contains, str_eq,
    validate_device_choice, DeviceInfo, DeviceType,
};
use audio_streamer::AudioStreamerError;

#[test]
fn known_virtual_signatures() {
    assert!(is_virtual_device("BlackHole 2ch"));
    assert!(is_virtual_device("Soundflower (2ch)"));
    assert!(is_virtual_device("VB-CABLE Input"));
    assert!(is_virtual_device("CABLE Output (VB-Audio Virtual Cable)"));
    assert!(is_virtual_device("Virtual Audio Cable Line 1"));
}

#[test]
fn physical_names_are_not_virtual() {
    assert!(!is_virtual_device("MacBook Pro Microphone"));
    assert!(!is_virtual_device("USB Audio Device"));
    assert!(!is_virtual_device(""));
    assert!(!is_virtual_device("blackhole")); // case matters
}

#[test]
fn substring_search() {
    assert!(str_contains("hello world", "lo wo"));
    assert!(str_contains("abc", ""));
    assert!(!str_contains("abc", "abcd"));
    assert!(!str_contains("abc", "ac"));
    assert!(str_eq("same", "same"));
    assert!(!str_eq("same", "sane"));
}

#[test]
fn listing_with_system_audio_entry() {
    let names = vec!["Mic A".to_string(), "BlackHole 2ch".to_string()];
    let default_name = "Mic A".to_string();
    let out = build_device_list(
        &names,
        Some(&default_name),
        Some("System Audio (macOS)".to_string()),
    );
    assert_eq!(out.len(), 3);
    assert_eq!(out[0].name, "System Audio (macOS)");
    assert_eq!(out[0].index, 0);
    assert_eq!(out[0].device_type, DeviceType::SystemAudio);
    assert!(!out[0].is_default);
    assert_eq!(out[1].name, "Mic A");
    assert_eq!(out[1].index, 1);
    assert_eq!(out[1].device_type, DeviceType::Physical);
    assert!(out[1].is_default);
    assert_eq!(out[2].name, "BlackHole 2ch");
    assert_eq!(out[2].index, 2);
    assert_eq!(out[2].device_type, DeviceType::Virtual);
    assert!(!out[2].is_default);
}

#[test]
fn listing_without_synthetic_appends_hint() {
    let names = vec!["Mic A".to_string()];
    let out = build_device_list(&names, None, None);
    assert_eq!(out.len(), 2);
    assert_eq!(out[0].name, "Mic A");
    assert_eq!(out[0].index, 0);
    assert!(!out[0].is_default);
    assert_eq!(
        out[1].name,
        "System Audio (requires BlackHole/Soundflower installation)"
    );
    assert_eq!(out[1].index, 1);
    assert_eq!(out[1].device_type, DeviceType::Virtual);
}

#[test]
fn listing_without_synthetic_keeps_virtual() {
    let names = vec!["CABLE Output (VB-Audio)".to_string()];
    let out = build_device_list(&names, None, None);
    assert_eq!(out.len(), 1);
    assert_eq!(out[0].device_type, DeviceType::Virtual);
    assert_eq!(out[0].index, 0);
}

#[test]
fn default_position_is_found() {
    let devices = vec![
        DeviceInfo {
            name: "a".to_string(),
            is_default: false,
            index: 0,
            device_type: DeviceType::Physical,
        },
        DeviceInfo {
            name: "b".to_string(),
            is_default: true,
            index: 1,
            device_type: DeviceType::Physical,
        },
    ];
    assert_eq!(default_device_index(&devices), 1);
}

#[test]
fn no_default_falls_back_to_first() {
    let devices = vec![DeviceInfo {
        name: "a".to_string(),
        is_default: false,
        index: 0,
        device_type: DeviceType::Physical,
    }];
    assert_eq!(default_device_index(&devices), 0);
    let empty: Vec<DeviceInfo> = Vec::new();
    assert_eq!(default_device_index(&empty), 0);
}

#[test]
fn one_based_choice_validation() {
    assert_eq!(validate_device_choice(1, 3).unwrap(), 0);
    assert_eq!(validate_device_choice(3, 3).unwrap(), 2);
    assert!(matches!(
        validate_device_choice(0, 3),
        Err(AudioStreamerError::DeviceError(_))
    ));
    assert!(matches!(
        validate_device_choice(4, 3),
        Err(AudioStreamerError::DeviceError(_))
    ));
}
