use smarthouse::house::{Device, Room, SmartHouse};
use smarthouse::providers::CustomProvider;

fn sample_house() -> SmartHouse {
    let socket1_kitchen = Device::new("socket-1".to_string(), "on".to_string());
    let socket2_kitchen = Device::new("socket-2".to_string(), "off".to_string());
    let socket1_hall = Device::new("socket-1".to_string(), "off".to_string());
    let socket2_hall = Device::new("socket-2".to_string(), "on".to_string());
    let room1 = Room::new("kitchen".to_string(), vec![socket1_kitchen, socket2_kitchen]);
    let room2 = Room::new("hall".to_string(), vec![socket1_hall, socket2_hall]);
    SmartHouse::new("sample SmartHouse".to_string(), vec![room1, room2])
}

fn provider_of(pairs: &[(&str, &str)]) -> CustomProvider {
    let mut devices: Vec<(String, String)> = Vec::new();
    for pair in pairs {
        devices.push((pair.0.to_string(), pair.1.to_string()));
    }
    CustomProvider::new(devices)
}

#[test]
fn test_report_ok() {
    let sh = sample_house();

    // case 1: existing rooms and devices
    let provider1 = provider_of(&[
        ("kitchen", "socket-1"),
        ("kitchen", "socket-2"),
        ("hall", "socket-1"),
        ("hall", "socket-2"),
    ]);

    let report = "Report for house: sample SmartHouse
  Room kitchen: 
    Device socket-1: on
  Room kitchen: 
    Device socket-2: off
  Room hall: 
    Device socket-1: off
  Room hall: 
    Device socket-2: on
";

    assert_eq!(sh.create_report(provider1), report);
}

#[test]
fn test_report_device_invalid() {
    let sh = sample_house();

    // case 2: existing rooms but some devices are invalid
    let provider2 = provider_of(&[
        ("kitchen", "socket-1"),
        ("kitchen", "thermo-1"),
        ("hall", "socket-1"),
        ("hall", "socket-3"),
    ]);

    let report = "Report for house: sample SmartHouse
  Room kitchen: 
    Device socket-1: on
  Room kitchen: 
    Device thermo-1: does not exist in the room kitchen.
  Room hall: 
    Device socket-1: off
  Room hall: 
    Device socket-3: does not exist in the room hall.
";

    assert_eq!(sh.create_report(provider2), report);
}

#[test]
fn test_report_room_invalid() {
    let sh = sample_house();

    // case 3: one room does not exist
    let provider3 = provider_of(&[
        ("bedroom", "socket-1"),
        ("bedroom", "socket-2"),
        ("kitchen", "socket-1"),
        ("kitchen", "socket-2"),
    ]);

    let report = "Report for house: sample SmartHouse
  Room bedroom: does not exist in the house.
  Room bedroom: does not exist in the house.
  Room kitchen: 
    Device socket-1: on
  Room kitchen: 
    Device socket-2: off
";

    assert_eq!(sh.create_report(provider3), report);
}

#[test]
fn test_report_twice_identical() {
    let sh = sample_house();
    let pairs = [
        ("kitchen", "socket-1"),
        ("bedroom", "socket-2"),
        ("hall", "thermo-1"),
    ];
    let first = sh.create_report(provider_of(&pairs));
    let second = sh.create_report(provider_of(&pairs));
    assert_eq!(first, second);
}

#[test]
fn test_report_entry_order() {
    let sh = sample_house();
    let provider = provider_of(&[
        ("hall", "socket-2"),
        ("kitchen", "socket-1"),
        ("hall", "socket-1"),
    ]);

    let report = "Report for house: sample SmartHouse
  Room hall: 
    Device socket-2: on
  Room kitchen: 
    Device socket-1: on
  Room hall: 
    Device socket-1: off
";

    assert_eq!(sh.create_report(provider), report);
}

#[test]
fn test_report_invalid_entry_isolated() {
    let sh = sample_house();
    let valid = sh.create_report(provider_of(&[
        ("kitchen", "socket-1"),
        ("kitchen", "socket-2"),
        ("hall", "socket-1"),
    ]));
    let broken = sh.create_report(provider_of(&[
        ("kitchen", "socket-1"),
        ("kitchen", "thermo-9"),
        ("hall", "socket-1"),
    ]));

    let valid_lines: Vec<&str> = valid.lines().collect();
    let broken_lines: Vec<&str> = broken.lines().collect();
    assert_eq!(valid_lines.len(), 7);
    assert_eq!(broken_lines.len(), 7);
    // Entry 1 occupies lines 3 and 4; every other line is unchanged.
    for index in [0usize, 1, 2, 5, 6] {
        assert_eq!(valid_lines[index], broken_lines[index]);
    }
    assert_eq!(valid_lines[3], "  Room kitchen: ");
    assert_eq!(broken_lines[3], "  Room kitchen: ");
    assert_eq!(valid_lines[4], "    Device socket-2: off");
    assert_eq!(
        broken_lines[4],
        "    Device thermo-9: does not exist in the room kitchen."
    );
}

#[test]
fn test_report_empty_provider() {
    let sh = sample_house();
    let provider = CustomProvider::new(Vec::new());
    assert_eq!(sh.create_report(provider), "Report for house: sample SmartHouse\n");
}

#[test]
fn test_report_empty_house() {
    let sh = SmartHouse::new("bare".to_string(), Vec::new());
    let provider = provider_of(&[("kitchen", "socket-1")]);
    let report = "Report for house: bare
  Room kitchen: does not exist in the house.
";
    assert_eq!(sh.create_report(provider), report);
}
