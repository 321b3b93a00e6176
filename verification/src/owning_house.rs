//! The owning provider variant: a provider that owns its socket together
//! with the house it reports on.

use vstd::prelude::*;

use crate::house::DeviceInfoProvider;
use crate::house::FindError;
use crate::house::SmartHouse;
use crate::house::rooms_report;

verus! {

/// A socket device: a name and a textual state.
pub struct SmartSocket {
    pub name: String,
    pub state: String,
}

/// A provider that owns the socket it knows about and the house it reports
/// on. Name matching goes only against the owned socket, never against the
/// house's containment data.
pub struct OwningDeviceInfoProvider {
    socket: SmartSocket,
    pub house: SmartHouse,
}

impl OwningDeviceInfoProvider {
    /// The socket this provider reports on.
    pub closed spec fn spec_socket(&self) -> SmartSocket {
        self.socket
    }

    /// The house this provider owns.
    pub closed spec fn spec_house(&self) -> SmartHouse {
        self.house
    }

    /// Builds the demonstration provider: a house named "My house" whose
    /// room "Room A" holds the device "Socket 1", and an owned socket
    /// "Socket 1" in state "working".
    pub fn new() -> (p: OwningDeviceInfoProvider)
        ensures
            p.spec_house().wf(),
            p.spec_house().spec_name() == "My house"@,
            p.spec_house().room_list() == seq!["Room A"@],
            p.spec_house().device_list("Room A"@) == seq!["Socket 1"@],
            p.spec_socket().name@ == "Socket 1"@,
            p.spec_socket().state@ == "working"@,
    {
        let socket1 = SmartSocket { name: "Socket 1".to_owned(), state: "working".to_owned() };

        let mut my_house = SmartHouse::new("My house");
        my_house.add_room("Room A");
        proof {
            assert(my_house.room_list() =~= seq!["Room A"@]);
            assert(my_house.room_list()[0] == "Room A"@);
        }
        my_house.add_device("Room A", "Socket 1").unwrap();
        proof {
            assert(my_house.device_list("Room A"@) =~= seq!["Socket 1"@]);
        }

        OwningDeviceInfoProvider { socket: socket1, house: my_house }
    }

    /// The report of the owned house, rendered through this provider.
    pub fn create_report(&self) -> (r: String)
        requires
            self.spec_house().wf(),
        ensures
            r@ == "Report: \n"@ + rooms_report(self, &self.spec_house(), self.spec_house().room_list()),
    {
        self.house.create_report(self)
    }

    /// The room names of the owned house.
    pub fn get_rooms(&self) -> (rooms: Vec<String>)
        ensures
            rooms.deep_view() == self.spec_house().room_list(),
    {
        self.house.get_rooms()
    }

    /// The device names of a room of the owned house.
    pub fn get_devices(&self, room_name: &str) -> (r: Result<Vec<String>, FindError>)
        requires
            self.spec_house().wf(),
        ensures
            self.spec_house().room_list().contains(room_name@) ==> (r matches Ok(devs)
                && devs.deep_view() == self.spec_house().device_list(room_name@)),
            !self.spec_house().room_list().contains(room_name@) ==> r == Err::<Vec<String>, FindError>(
                FindError::RoomNotFound,
            ),
    {
        self.house.get_devices(room_name)
    }
}

impl DeviceInfoProvider for OwningDeviceInfoProvider {
    /// The status line of the owned socket when the device name matches it,
    /// and a "not found" line otherwise.
    open spec fn info_spec(&self, room: Seq<char>, device: Seq<char>) -> Seq<char> {
        if device == self.spec_socket().name@ {
            "room: "@ + room + ", device: "@ + self.spec_socket().name@ + ", state: "@
                + self.spec_socket().state@
        } else {
            "room: "@ + room + ", device: "@ + self.spec_socket().name@ + ", not found"@
        }
    }

    fn get_device_info(&self, room: &str, name: &str) -> (r: String) {
        let mut info: String = "room: ".to_owned();
        info.append(room);
        info.append(", device: ");
        info.append(self.socket.name.as_str());
        if self.socket.name == name.to_owned() {
            info.append(", state: ");
            info.append(self.socket.state.as_str());
        } else {
            info.append(", not found");
        }
        proof {
            assert(info@ =~= self.info_spec(room@, name@));
        }
        info
    }
}

} // verus!
