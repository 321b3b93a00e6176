//! The borrowing provider variant: a provider that holds non-owning
//! references to caller-held devices, so that reporting never outlives or
//! consumes the referenced objects.

use vstd::prelude::*;

use crate::decimal::push_tenths;
use crate::decimal::tenths_str;
use crate::house::DeviceInfoProvider;
use crate::house::FindError;
use crate::house::SmartHouse;
use crate::house::rooms_report;

verus! {

/// A socket device: a name and a textual state.
pub struct SmartSocket {
    pub name: String,
    pub state: String,
}

/// A thermometer device: a name and a temperature reading. The reading is
/// held in tenths of a degree Celsius, so a value of 254 renders as "25.4".
pub struct SmartThermometer {
    pub name: String,
    pub temperature_tenths: i32,
}

/// A provider that borrows its socket and thermometer from the caller and
/// owns only the house it reports on. Name matching goes only against the
/// borrowed devices, never against the house's containment data.
pub struct BorrowingDeviceInfoProvider<'a, 'b> {
    socket: &'a SmartSocket,
    thermo: &'b SmartThermometer,
    pub house: SmartHouse,
}

impl<'a, 'b> BorrowingDeviceInfoProvider<'a, 'b> {
    /// The borrowed socket this provider reports on.
    pub closed spec fn spec_socket(&self) -> SmartSocket {
        *self.socket
    }

    /// The borrowed thermometer this provider reports on.
    pub closed spec fn spec_thermo(&self) -> SmartThermometer {
        *self.thermo
    }

    /// The house this provider owns.
    pub closed spec fn spec_house(&self) -> SmartHouse {
        self.house
    }

    /// Wraps the borrowed devices together with an empty house named
    /// "My house".
    pub fn new(socket: &'a SmartSocket, thermo: &'b SmartThermometer) -> (p:
        BorrowingDeviceInfoProvider<'a, 'b>)
        ensures
            p.spec_house().wf(),
            p.spec_house().spec_name() == "My house"@,
            p.spec_house().room_list() == Seq::<Seq<char>>::empty(),
            forall|k: Seq<char>| #[trigger]
                p.spec_house().device_list(k) == Seq::<Seq<char>>::empty(),
            p.spec_socket() == *socket,
            p.spec_thermo() == *thermo,
    {
        let my_house = SmartHouse::new("My house");
        BorrowingDeviceInfoProvider { socket, thermo, house: my_house }
    }

    /// The report of the owned house, rendered through this provider.
    pub fn create_report(&self) -> (r: String)
        requires
            self.spec_house().wf(),
        ensures
            r@ == "Report: \n"@ + rooms_report(self, &self.spec_house(), self.spec_house().room_list()),
    {
        self.house.create_report(self)
    }

    /// The room names of the owned house.
    pub fn get_rooms(&self) -> (rooms: Vec<String>)
        ensures
            rooms.deep_view() == self.spec_house().room_list(),
    {
        self.house.get_rooms()
    }

    /// The device names of a room of the owned house.
    pub fn get_devices(&self, room_name: &str) -> (r: Result<Vec<String>, FindError>)
        requires
            self.spec_house().wf(),
        ensures
            self.spec_house().room_list().contains(room_name@) ==> (r matches Ok(devs)
                && devs.deep_view() == self.spec_house().device_list(room_name@)),
            !self.spec_house().room_list().contains(room_name@) ==> r == Err::<
                Vec<String>,
                FindError,
            >(FindError::RoomNotFound),
    {
        self.house.get_devices(room_name)
    }
}

impl<'a, 'b> DeviceInfoProvider for BorrowingDeviceInfoProvider<'a, 'b> {
    /// The status line of whichever borrowed device the name matches:
    /// the socket's state, the thermometer's reading in degrees Celsius,
    /// or a "not found" line when neither matches.
    open spec fn info_spec(&self, room: Seq<char>, device: Seq<char>) -> Seq<char> {
        if device == self.spec_socket().name@ {
            "room: "@ + room + ", device: "@ + self.spec_socket().name@ + ", state: "@
                + self.spec_socket().state@
        } else if device == self.spec_thermo().name@ {
            "room: "@ + room + ", device: "@ + self.spec_thermo().name@ + ", state: "@
                + tenths_str(self.spec_thermo().temperature_tenths as int) + "°C"@
        } else {
            "room: "@ + room + ", device: "@ + self.spec_socket().name@ + ", not found"@
        }
    }

    fn get_device_info(&self, room: &str, name: &str) -> (r: String) {
        let key: String = name.to_owned();
        let mut info: String = "room: ".to_owned();
        info.append(room);
        info.append(", device: ");
        if self.socket.name == key {
            info.append(self.socket.name.as_str());
            info.append(", state: ");
            info.append(self.socket.state.as_str());
        } else if self.thermo.name == key {
            info.append(self.thermo.name.as_str());
            info.append(", state: ");
            push_tenths(&mut info, self.thermo.temperature_tenths);
            info.append("°C");
        } else {
            info.append(self.socket.name.as_str());
            info.append(", not found");
        }
        proof {
            assert(info@ =~= self.info_spec(room@, name@));
        }
        info
    }
}

} // verus!
