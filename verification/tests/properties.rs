use smart_house::borrowing_house::BorrowingDeviceInfoProvider;
use smart_house::borrowing_house::SmartSocket;
use smart_house::borrowing_house::SmartThermometer;
use smart_house::house::DeviceInfoProvider;
use smart_house::house::FindError;
use smart_house::house::SmartHouse;
use smart_house::owning_house::OwningDeviceInfoProvider;

#[test]
fn get_devices_fails_for_room_never_added() {
    let house = SmartHouse::new("My house");
    assert_eq!(house.get_devices("Anywhere").unwrap_err(), FindError::RoomNotFound);
    let mut house = SmartHouse::new("My house");
    house.add_room("Room A");
    assert_eq!(house.get_devices("Room B").unwrap_err(), FindError::RoomNotFound);
}

#[test]
fn add_room_is_idempotent() {
    let mut house = SmartHouse::new("My house");
    house.add_room("Room A");
    house.add_room("Room A");
    house.add_room("Room A");
    let rooms = house.get_rooms();
    assert_eq!(rooms.len(), 1);
    assert_eq!(rooms.iter().filter(|r| r.as_str() == "Room A").count(), 1);
}

#[test]
fn add_device_is_idempotent() {
    let mut house = SmartHouse::new("My house");
    house.add_room("Room A");
    assert!(house.add_device("Room A", "Socket 1").unwrap());
    assert!(house.add_device("Room A", "Socket 1").unwrap());
    let devices = house.get_devices("Room A").unwrap();
    assert_eq!(devices.len(), 1);
    assert_eq!(devices.iter().filter(|d| d.as_str() == "Socket 1").count(), 1);
}

#[test]
fn remove_device_reports_what_is_missing() {
    let mut house = SmartHouse::new("My house");
    house.add_room("Room A");
    house.add_device("Room A", "Socket 1").unwrap();
    assert_eq!(
        house.remove_device("Room A", "Socket 2").unwrap_err(),
        FindError::DeviceNotFound
    );
    assert_eq!(
        house.remove_device("Room B", "Socket 1").unwrap_err(),
        FindError::RoomNotFound
    );
    let devices = house.get_devices("Room A").unwrap();
    assert_eq!(devices, vec!["Socket 1".to_string()]);
}

#[test]
fn add_then_remove_leaves_room_without_device() {
    let mut house = SmartHouse::new("My house");
    house.add_room("Room A");
    house.add_device("Room A", "Socket 1").unwrap();
    house.remove_device("Room A", "Socket 1").unwrap();
    let devices = house.get_devices("Room A").unwrap();
    assert!(!devices.contains(&"Socket 1".to_string()));
    assert_eq!(devices.len(), 0);
}

#[test]
fn remove_room_absent_answers_none() {
    let mut house = SmartHouse::new("My house");
    assert_eq!(house.remove_room("Room A"), None);
    house.add_room("Room A");
    assert_eq!(house.remove_room("Room A"), Some(true));
    assert_eq!(house.remove_room("Room A"), None);
}

#[test]
fn remove_room_cascades_to_devices() {
    let mut house = SmartHouse::new("My house");
    house.add_room("Room A");
    house.add_device("Room A", "Socket 1").unwrap();
    house.remove_room("Room A").unwrap();
    assert_eq!(house.get_devices("Room A").unwrap_err(), FindError::RoomNotFound);
    house.add_room("Room A");
    assert_eq!(house.get_devices("Room A").unwrap(), Vec::<String>::new());
}

#[test]
fn find_error_message() {
    assert_eq!(FindError::RoomNotFound.message(), "room or device not found");
    assert_eq!(FindError::DeviceNotFound.message(), "room or device not found");
}

#[test]
fn owning_report_holds_the_socket_status_line() {
    let info_provider = OwningDeviceInfoProvider::new();
    let report = info_provider.create_report();
    assert!(report.contains("room: Room A, device: Socket 1, state: working"));
    assert_eq!(report, "Report: \nroom: Room A, device: Socket 1, state: working\n");
}

#[test]
fn owning_provider_knows_only_its_rooms() {
    let info_provider = OwningDeviceInfoProvider::new();
    let rooms = info_provider.get_rooms();
    assert_eq!(rooms, vec!["Room A".to_string()]);
    let devices = info_provider.get_devices("Room A").unwrap();
    assert_eq!(devices, vec!["Socket 1".to_string()]);
    assert_eq!(
        info_provider.get_devices("Room B").unwrap_err(),
        FindError::RoomNotFound
    );
}

#[test]
fn borrowing_report_covers_both_devices() {
    let socket2 = SmartSocket { name: String::from("Socket 2"), state: String::from("broken") };
    let thermo = SmartThermometer {
        name: String::from("Thermometer 1"),
        temperature_tenths: 254,
    };
    let mut provider = BorrowingDeviceInfoProvider::new(&socket2, &thermo);
    provider.house.add_room("Room B");
    provider.house.add_device("Room B", "Socket 2").unwrap();
    provider.house.add_device("Room B", "Thermometer 1").unwrap();
    let report = provider.create_report();
    assert!(report.starts_with("Report: \n"));
    assert!(report.contains("room: Room B, device: Socket 2, state: broken"));
    assert!(report.contains("room: Room B, device: Thermometer 1, state: 25.4°C"));
}

#[test]
fn borrowing_provider_line_for_unknown_device() {
    let socket = SmartSocket { name: String::from("Socket 2"), state: String::from("broken") };
    let thermo = SmartThermometer { name: String::from("Thermometer 1"), temperature_tenths: 254 };
    let provider = BorrowingDeviceInfoProvider::new(&socket, &thermo);
    let line = provider.get_device_info("Room B", "Lamp 7");
    assert_eq!(line, "room: Room B, device: Socket 2, not found");
}

#[test]
fn thermometer_readings_render_as_decimals() {
    let socket = SmartSocket { name: String::from("Socket 2"), state: String::from("broken") };

    let freezing = SmartThermometer { name: String::from("T"), temperature_tenths: 0 };
    let provider = BorrowingDeviceInfoProvider::new(&socket, &freezing);
    assert_eq!(provider.get_device_info("R", "T"), "room: R, device: T, state: 0°C");

    let whole = SmartThermometer { name: String::from("T"), temperature_tenths: 250 };
    let provider = BorrowingDeviceInfoProvider::new(&socket, &whole);
    assert_eq!(provider.get_device_info("R", "T"), "room: R, device: T, state: 25°C");

    let below = SmartThermometer { name: String::from("T"), temperature_tenths: -35 };
    let provider = BorrowingDeviceInfoProvider::new(&socket, &below);
    assert_eq!(provider.get_device_info("R", "T"), "room: R, device: T, state: -3.5°C");
}
