use smart_house::house::SmartHouse;
use smart_house::owning_house::OwningDeviceInfoProvider;

#[test]
fn test_new() {
    let name = "My house";
    let house = SmartHouse::new(name);
    assert_eq!(house.name, name);
}

#[test]
fn test_add_room() {
    let mut house = SmartHouse::new("My house");
    house.add_room("Room A");
    let all_rooms = house.get_rooms();
    assert_eq!("Room A", all_rooms[0]);
}

#[test]
fn test_remove_room() {
    let mut house = SmartHouse::new("My house");
    house.add_room("Room A");
    house.remove_room("Room A").unwrap();
    let all_rooms = house.get_rooms();
    assert_eq!(all_rooms.len(), 0);
}

#[test]
fn test_add_device() {
    let mut house = SmartHouse::new("My house");
    house.add_room("Room A");
    house.add_device("Room A", "Socket 1").unwrap();
}

#[test]
#[should_panic(expected = "RoomNotFound")]
fn test_add_device_negative() {
    let mut house = SmartHouse::new("My house");
    house.add_room("Room A");
    house.add_device("Room B", "Socket 1").unwrap();
}

#[test]
fn test_remove_device() {
    let mut house = SmartHouse::new("My house");
    house.add_room("Room A");
    house.add_device("Room A", "Socket 1").unwrap();
    house.remove_device("Room A", "Socket 1").unwrap();
}

#[test]
#[should_panic(expected = "RoomNotFound")]
fn test_remove_device_negative() {
    let mut house = SmartHouse::new("My house");
    house.add_room("Room A");
    house.add_device("Room A", "Socket 1").unwrap();
    house.remove_device("Room B", "Socket 1").unwrap();
}

#[test]
#[should_panic(expected = "DeviceNotFound")]
fn test_remove_device_negative_2() {
    let mut house = SmartHouse::new("My house");
    house.add_room("Room A");
    let res = house.add_device("Room A", "Socket 1");
    res.unwrap();
    let res1 = house.remove_device("Room A", "Socket 2");
    res1.unwrap();
}

#[test]
fn test_get_devices() {
    let mut house = SmartHouse::new("My house");
    house.add_room("Room A");
    house.add_device("Room A", "Socket 1").unwrap();
    house.add_device("Room A", "Thermometer 1").unwrap();
    let devices = house.get_devices("Room A").unwrap();
    let result = (devices == vec!["Socket 1".to_string(), "Thermometer 1".to_string()])
        || (devices == vec!["Thermometer 1".to_string(), "Socket 1".to_string()]);
    assert!(result);
}

#[test]
fn test_report() {
    let mut house = SmartHouse::new("My house");
    house.add_room("Room A");
    house.add_device("Room A", "Socket 1").unwrap();
    let info_provider = OwningDeviceInfoProvider::new();
    let report = house.create_report(&info_provider);
    let keywords = ["Room A", "Socket 1", "state"];
    let mut result = true;
    for word in keywords {
        if !report.contains(word) {
            result = false;
        }
    }
    assert!(result);
}
