//! The house registry: rooms keyed by unique name, each owning a set of
//! device names, with an error taxonomy for missing rooms and devices.

use vstd::prelude::*;

verus! {

/// Names are modelled as character sequences; a room list or a device list is
/// free of duplicates when no two positions hold the same name.
pub open spec fn distinct_names(s: Seq<Seq<char>>) -> bool {
    forall|i: int, j: int| 0 <= i < j < s.len() ==> s[i] != s[j]
}

/// Idempotent insertion: the name is appended only when it is not yet listed.
pub open spec fn insert_name(s: Seq<Seq<char>>, x: Seq<char>) -> Seq<Seq<char>> {
    if s.contains(x) {
        s
    } else {
        s.push(x)
    }
}

/// Removal of the first occurrence of a name, if any.
pub open spec fn remove_name(s: Seq<Seq<char>>, x: Seq<char>) -> Seq<Seq<char>> {
    s.remove_value(x)
}

/// How often a name occurs in a list.
pub open spec fn count_in(s: Seq<Seq<char>>, x: Seq<char>) -> nat
    decreases s.len(),
{
    if s.len() == 0 {
        0
    } else {
        count_in(s.drop_last(), x) + (if s.last() == x {
            1nat
        } else {
            0nat
        })
    }
}

/// A room: its name and the devices registered in it.
struct Room {
    name: String,
    devices: Vec<String>,
}

/// The outcomes of an operation that targets a missing room or device.
/// Both are recoverable results, never process-fatal.
#[derive(Debug, PartialEq, Eq, Structural)]
pub enum FindError {
    RoomNotFound,
    DeviceNotFound,
}

impl FindError {
    /// A short human-readable description of the failure.
    pub fn message(&self) -> (r: &'static str)
        ensures
            r@ == "room or device not found"@,
    {
        "room or device not found"
    }
}

/// The house: a name and a collection of rooms with unique names.
pub struct SmartHouse {
    pub name: String,
    rooms: Vec<Room>,
}

/// The devices of the first room carrying the given name, as a sequence of
/// name views; empty when no room carries it.
spec fn devices_of(rooms: Seq<Room>, room: Seq<char>) -> Seq<Seq<char>>
    decreases rooms.len(),
{
    if rooms.len() == 0 {
        Seq::empty()
    } else if rooms[0].name@ == room {
        rooms[0].devices.deep_view()
    } else {
        devices_of(rooms.drop_first(), room)
    }
}

/// The room names of a room collection, in order.
spec fn name_views(rooms: Seq<Room>) -> Seq<Seq<char>> {
    rooms.map_values(|r: Room| r.name@)
}

impl SmartHouse {
    /// The house's name, as a character sequence.
    pub closed spec fn spec_name(&self) -> Seq<char> {
        self.name@
    }

    /// The room names currently registered, in insertion order.
    pub closed spec fn room_list(&self) -> Seq<Seq<char>> {
        name_views(self.rooms@)
    }

    /// The device names of the given room, in insertion order;
    /// empty when the room is absent.
    pub closed spec fn device_list(&self, room: Seq<char>) -> Seq<Seq<char>> {
        devices_of(self.rooms@, room)
    }

    /// Well-formedness: room names are unique, and each room's device names
    /// are unique. Established by `new` and preserved by every method.
    pub open spec fn wf(&self) -> bool {
        &&& distinct_names(self.room_list())
        &&& forall|k: Seq<char>| distinct_names(#[trigger] self.device_list(k))
    }

    /// Creates an empty house with the given name and zero rooms.
    pub fn new(name: &str) -> (house: SmartHouse)
        ensures
            house.wf(),
            house.spec_name() == name@,
            house.room_list() == Seq::<Seq<char>>::empty(),
            forall|k: Seq<char>| #[trigger] house.device_list(k) == Seq::<Seq<char>>::empty(),
    {
        let house = SmartHouse { name: name.to_owned(), rooms: Vec::new() };
        proof {
            assert(house.room_list() =~= Seq::<Seq<char>>::empty());
        }
        house
    }

    /// The index of the room with the given name, if present.
    fn find_room(&self, room: &str) -> (r: Option<usize>)
        ensures
            match r {
                Some(i) => {
                    &&& i < self.rooms@.len()
                    &&& self.rooms@[i as int].name@ == room@
                    &&& forall|j: int| 0 <= j < i ==> self.rooms@[j].name@ != room@
                    &&& self.room_list().contains(room@)
                },
                None => !self.room_list().contains(room@),
            },
    {
        let key: String = room.to_owned();
        let mut i: usize = 0;
        while i < self.rooms.len()
            invariant
                i <= self.rooms@.len(),
                key@ == room@,
                forall|j: int| 0 <= j < i ==> self.rooms@[j].name@ != room@,
            decreases self.rooms@.len() - i,
        {
            if self.rooms[i].name == key {
                proof {
                    assert(self.room_list()[i as int] == room@);
                }
                return Some(i);
            }
            i = i + 1;
        }
        proof {
            assert forall|j: int| 0 <= j < self.room_list().len()
                implies self.room_list()[j] != room@ by {
                assert(self.rooms@[j].name@ != room@);
            }
        }
        None
    }

    /// Inserts a room when absent; repeating the call changes nothing.
    pub fn add_room(&mut self, name: &str)
        requires
            old(self).wf(),
        ensures
            final(self).wf(),
            final(self).spec_name() == old(self).spec_name(),
            final(self).room_list() == insert_name(old(self).room_list(), name@),
            forall|k: Seq<char>| #[trigger] final(self).device_list(k) == old(self).device_list(k),
    {
        match self.find_room(name) {
            Some(_) => {},
            None => {
                let ghost rooms0 = self.rooms@;
                let room = Room { name: name.to_owned(), devices: Vec::new() };
                proof {
                    lemma_devices_of_push_all(rooms0, room);
                    lemma_devices_of_absent(rooms0, name@);
                    assert(name_views(rooms0.push(room)) =~= name_views(rooms0).push(name@));
                    assert(room.devices.deep_view() =~= Seq::<Seq<char>>::empty());
                }
                self.rooms.push(room);
                proof {
                    assert forall|k: Seq<char>| #[trigger] devices_of(rooms0.push(room), k)
                        == devices_of(rooms0, k) by {
                        if !name_views(rooms0).contains(k) {
                            lemma_devices_of_absent(rooms0, k);
                        }
                    }
                    assert forall|k: Seq<char>| distinct_names(#[trigger] self.device_list(k)) by {
                        assert(devices_of(rooms0.push(room), k) == devices_of(rooms0, k));
                        assert(distinct_names(old(self).device_list(k)));
                    }
                    assert(self.room_list() == name_views(rooms0).push(name@));
                    assert(distinct_names(self.room_list())) by {
                        let s = self.room_list();
                        assert forall|i: int, j: int| 0 <= i < j < s.len() implies s[i] != s[j] by {
                            if j == s.len() - 1 {
                                assert(name_views(rooms0)[i] != name@);
                            }
                        }
                    }
                }
            },
        }
    }
}

/// Appending a room leaves every device list unchanged, except that a name
/// not yet listed now answers with the new room's devices.
proof fn lemma_devices_of_push(rooms: Seq<Room>, r: Room, k: Seq<char>)
    ensures
        devices_of(rooms.push(r), k) == if name_views(rooms).contains(k) {
            devices_of(rooms, k)
        } else if r.name@ == k {
            r.devices.deep_view()
        } else {
            Seq::<Seq<char>>::empty()
        },
    decreases rooms.len(),
{
    if rooms.len() == 0 {
        assert(name_views(rooms).len() == 0);
        assert(!name_views(rooms).contains(k));
        assert(rooms.push(r)[0] == r);
        if r.name@ == k {
            assert(devices_of(rooms.push(r), k) == r.devices.deep_view());
        } else {
            assert(rooms.push(r).drop_first() =~= Seq::<Room>::empty());
            assert(devices_of(rooms.push(r), k) == devices_of(rooms.push(r).drop_first(), k));
            assert(devices_of(rooms.push(r), k) == Seq::<Seq<char>>::empty());
        }
    } else {
        assert(rooms.push(r)[0] == rooms[0]);
        if rooms[0].name@ == k {
            assert(name_views(rooms)[0] == k);
            assert(name_views(rooms).contains(k));
        } else {
            assert(rooms.push(r).drop_first() =~= rooms.drop_first().push(r));
            lemma_devices_of_push(rooms.drop_first(), r, k);
            assert(name_views(rooms).contains(k) <==> name_views(rooms.drop_first()).contains(
                k,
            )) by {
                if name_views(rooms).contains(k) {
                    let i = choose|i: int|
                        0 <= i < name_views(rooms).len() && name_views(rooms)[i] == k;
                    assert(i != 0);
                    assert(name_views(rooms.drop_first())[i - 1] == k);
                }
                if name_views(rooms.drop_first()).contains(k) {
                    let i = choose|i: int|
                        0 <= i < name_views(rooms.drop_first()).len() && name_views(
                            rooms.drop_first(),
                        )[i] == k;
                    assert(name_views(rooms)[i + 1] == k);
                }
            }
        }
    }
}

impl SmartHouse {
    /// Removes a room and all its devices; answers `None` when the room
    /// was absent, `Some(true)` when it was removed.
    pub fn remove_room(&mut self, name: &str) -> (r: Option<bool>)
        requires
            old(self).wf(),
        ensures
            final(self).wf(),
            final(self).spec_name() == old(self).spec_name(),
            r == if old(self).room_list().contains(name@) {
                Some(true)
            } else {
                None::<bool>
            },
            final(self).room_list() == remove_name(old(self).room_list(), name@),
            final(self).device_list(name@) == Seq::<Seq<char>>::empty(),
            forall|k: Seq<char>|
                k != name@ ==> #[trigger] final(self).device_list(k) == old(self).device_list(k),
    {
        let ghost names0 = old(self).room_list();
        match self.find_room(name) {
            None => {
                proof {
                    names0.index_of_first_ensures(name@);
                    lemma_devices_of_absent(self.rooms@, name@);
                }
                None
            },
            Some(i) => {
                let ghost rooms0 = self.rooms@;
                self.rooms.remove(i);
                proof {
                    names0.index_of_first_ensures(name@);
                    let fi = names0.index_of_first(name@)->Some_0;
                    assert(names0[i as int] == name@);
                    assert(fi == i as int) by {
                        if fi < i as int {
                            assert(rooms0[fi].name@ != name@);
                        }
                        if (i as int) < fi {
                            assert(names0[i as int] != name@);
                        }
                    }
                    assert(self.room_list() =~= names0.remove(i as int));
                    assert(distinct_names(self.room_list())) by {
                        assert forall|x: int, y: int| 0 <= x < y < self.room_list().len()
                            implies self.room_list()[x] != self.room_list()[y] by {
                            names0.remove_ensures(i as int);
                        }
                    }
                    assert(!self.room_list().contains(name@)) by {
                        if self.room_list().contains(name@) {
                            let x = choose|x: int|
                                0 <= x < self.room_list().len() && self.room_list()[x] == name@;
                            names0.remove_ensures(i as int);
                            if x < i as int {
                                assert(names0[x] == name@);
                            } else {
                                assert(names0[x + 1] == name@);
                            }
                        }
                    }
                    lemma_devices_of_absent(self.rooms@, name@);
                    assert forall|k: Seq<char>| k != name@ implies #[trigger] devices_of(
                        rooms0.remove(i as int),
                        k,
                    ) == devices_of(rooms0, k) by {
                        lemma_devices_of_remove(rooms0, i as int, k);
                    }
                    assert forall|k: Seq<char>| distinct_names(
                        #[trigger] self.device_list(k),
                    ) by {
                        if k != name@ {
                            assert(devices_of(rooms0.remove(i as int), k) == devices_of(
                                rooms0,
                                k,
                            ));
                            assert(distinct_names(old(self).device_list(k)));
                        }
                    }
                }
                Some(true)
            },
        }
    }

    /// The room names currently present, as an owned snapshot.
    pub fn get_rooms(&self) -> (rooms: Vec<String>)
        ensures
            rooms.deep_view() == self.room_list(),
    {
        let mut result: Vec<String> = Vec::new();
        let mut i: usize = 0;
        while i < self.rooms.len()
            invariant
                i <= self.rooms@.len(),
                result@.len() == i,
                forall|l: int| 0 <= l < i ==> #[trigger] result@[l]@ == self.rooms@[l].name@,
            decreases self.rooms@.len() - i,
        {
            result.push(self.rooms[i].name.clone());
            i = i + 1;
        }
        proof {
            assert(result.deep_view() =~= self.room_list());
        }
        result
    }

    /// Inserts a device into an existing room's set; re-adding an existing
    /// device changes nothing. Fails with `RoomNotFound` when the room is
    /// absent, leaving the house untouched.
    pub fn add_device(&mut self, room_name: &str, device: &str) -> (r: Result<bool, FindError>)
        requires
            old(self).wf(),
        ensures
            final(self).wf(),
            final(self).spec_name() == old(self).spec_name(),
            final(self).room_list() == old(self).room_list(),
            old(self).room_list().contains(room_name@) ==> r == Ok::<bool, FindError>(true)
                && final(self).device_list(room_name@) == insert_name(
                old(self).device_list(room_name@),
                device@,
            ),
            !old(self).room_list().contains(room_name@) ==> r == Err::<bool, FindError>(
                FindError::RoomNotFound,
            ) && *final(self) == *old(self),
            forall|k: Seq<char>|
                k != room_name@ ==> #[trigger] final(self).device_list(k) == old(
                    self,
                ).device_list(k),
    {
        let idx = match self.find_room(room_name) {
            Some(i) => i,
            None => {
                return Err(FindError::RoomNotFound);
            },
        };
        proof {
            lemma_devices_of_found(self.rooms@, idx as int, room_name@);
        }
        match find_name(&self.rooms[idx].devices, device) {
            Some(_) => Ok(true),
            None => {
                let ghost rooms0 = self.rooms@;
                let ghost devs0 = self.rooms@[idx as int].devices.deep_view();
                let mut entry = self.rooms.remove(idx);
                entry.devices.push(device.to_owned());
                self.rooms.insert(idx, entry);
                proof {
                    let rooms1 = self.rooms@;
                    let r2 = rooms1[idx as int];
                    assert(rooms1 =~= rooms0.update(idx as int, r2));
                    assert(r2.name@ == room_name@);
                    assert(r2.devices.deep_view() =~= devs0.push(device@));
                    assert(self.room_list() =~= name_views(rooms0));
                    assert(distinct_names(self.room_list()));
                    lemma_devices_of_found(rooms1, idx as int, room_name@);
                    assert(self.device_list(room_name@) == devs0.push(device@));
                    assert(old(self).device_list(room_name@) == devs0);
                    assert(distinct_names(devs0));
                    assert(distinct_names(devs0.push(device@))) by {
                        let s = devs0.push(device@);
                        assert forall|x: int, y: int| 0 <= x < y < s.len() implies s[x] != s[y] by {
                            if y == s.len() - 1 {
                                assert(s[x] == devs0[x]);
                                if devs0[x] == device@ {
                                    assert(devs0.contains(device@));
                                }
                            } else {
                                assert(s[x] == devs0[x] && s[y] == devs0[y]);
                            }
                        }
                    }
                    assert forall|k: Seq<char>| k != room_name@ implies #[trigger] devices_of(
                        rooms1,
                        k,
                    ) == devices_of(rooms0, k) by {
                        lemma_devices_of_update_other(rooms0, idx as int, r2, k);
                    }
                    assert forall|k: Seq<char>| distinct_names(
                        #[trigger] self.device_list(k),
                    ) by {
                        if k != room_name@ {
                            assert(devices_of(rooms1, k) == devices_of(rooms0, k));
                            assert(distinct_names(old(self).device_list(k)));
                        }
                    }
                }
                Ok(true)
            },
        }
    }

    /// Removes a device from an existing room's set. Fails with
    /// `RoomNotFound` when the room is absent and with `DeviceNotFound`
    /// when the room lacks the device; either failure leaves the house
    /// untouched.
    pub fn remove_device(&mut self, room_name: &str, device: &str) -> (r: Result<bool, FindError>)
        requires
            old(self).wf(),
        ensures
            final(self).wf(),
            final(self).spec_name() == old(self).spec_name(),
            final(self).room_list() == old(self).room_list(),
            !old(self).room_list().contains(room_name@) ==> r == Err::<bool, FindError>(
                FindError::RoomNotFound,
            ) && *final(self) == *old(self),
            old(self).room_list().contains(room_name@) && !old(self).device_list(
                room_name@,
            ).contains(device@) ==> r == Err::<bool, FindError>(FindError::DeviceNotFound)
                && *final(self) == *old(self),
            old(self).room_list().contains(room_name@) && old(self).device_list(
                room_name@,
            ).contains(device@) ==> r == Ok::<bool, FindError>(true) && final(self).device_list(
                room_name@,
            ) == remove_name(old(self).device_list(room_name@), device@),
            forall|k: Seq<char>|
                k != room_name@ ==> #[trigger] final(self).device_list(k) == old(
                    self,
                ).device_list(k),
    {
        let idx = match self.find_room(room_name) {
            Some(i) => i,
            None => {
                return Err(FindError::RoomNotFound);
            },
        };
        proof {
            lemma_devices_of_found(self.rooms@, idx as int, room_name@);
        }
        let j = match find_name(&self.rooms[idx].devices, device) {
            Some(j) => j,
            None => {
                return Err(FindError::DeviceNotFound);
            },
        };
        let ghost rooms0 = self.rooms@;
        let ghost devs0 = self.rooms@[idx as int].devices.deep_view();
        let mut entry = self.rooms.remove(idx);
        entry.devices.remove(j);
        self.rooms.insert(idx, entry);
        proof {
            let rooms1 = self.rooms@;
            let r2 = rooms1[idx as int];
            assert(rooms1 =~= rooms0.update(idx as int, r2));
            assert(r2.name@ == room_name@);
            assert(r2.devices.deep_view() =~= devs0.remove(j as int));
            assert(self.room_list() =~= name_views(rooms0));
            assert(distinct_names(self.room_list()));
            lemma_devices_of_found(rooms1, idx as int, room_name@);
            devs0.index_of_first_ensures(device@);
            let fi = devs0.index_of_first(device@)->Some_0;
            assert(devs0[j as int] == device@);
            assert(fi == j as int) by {
                if fi < j as int {
                    assert(rooms0[idx as int].devices@[fi]@ != device@);
                }
                if (j as int) < fi {
                    assert(devs0[j as int] != device@);
                }
            }
            assert(self.device_list(room_name@) == devs0.remove(j as int));
            assert(old(self).device_list(room_name@) == devs0);
            assert(distinct_names(devs0));
            assert(distinct_names(devs0.remove(j as int))) by {
                let s = devs0.remove(j as int);
                assert forall|x: int, y: int| 0 <= x < y < s.len() implies s[x] != s[y] by {
                    devs0.remove_ensures(j as int);
                }
            }
            assert forall|k: Seq<char>| k != room_name@ implies #[trigger] devices_of(rooms1, k)
                == devices_of(rooms0, k) by {
                lemma_devices_of_update_other(rooms0, idx as int, r2, k);
            }
            assert forall|k: Seq<char>| distinct_names(#[trigger] self.device_list(k)) by {
                if k != room_name@ {
                    assert(devices_of(rooms1, k) == devices_of(rooms0, k));
                    assert(distinct_names(old(self).device_list(k)));
                }
            }
        }
        Ok(true)
    }

    /// The device names of the given room, as an owned snapshot; fails with
    /// `RoomNotFound` when the room is absent.
    pub fn get_devices(&self, room: &str) -> (r: Result<Vec<String>, FindError>)
        requires
            self.wf(),
        ensures
            self.room_list().contains(room@) ==> (r matches Ok(devs) && devs.deep_view()
                == self.device_list(room@)),
            !self.room_list().contains(room@) ==> r == Err::<Vec<String>, FindError>(
                FindError::RoomNotFound,
            ),
    {
        match self.find_room(room) {
            None => Err(FindError::RoomNotFound),
            Some(i) => {
                proof {
                    lemma_devices_of_found(self.rooms@, i as int, room@);
                }
                let mut result: Vec<String> = Vec::new();
                let mut j: usize = 0;
                while j < self.rooms[i].devices.len()
                    invariant
                        i < self.rooms@.len(),
                        j <= self.rooms@[i as int].devices@.len(),
                        result@.len() == j,
                        forall|l: int|
                            0 <= l < j ==> #[trigger] result@[l]@ == self.rooms@[i as int].devices@[l]@,
                    decreases self.rooms@[i as int].devices@.len() - j,
                {
                    result.push(self.rooms[i].devices[j].clone());
                    j = j + 1;
                }
                proof {
                    assert(result.deep_view() =~= self.rooms@[i as int].devices.deep_view());
                }
                Ok(result)
            },
        }
    }
}

/// An external capability that translates a (room, device) pair into a
/// human-readable status line; supplied per report-generation call.
pub trait DeviceInfoProvider {
    /// The line this provider answers for a (room, device) pair.
    spec fn info_spec(&self, room: Seq<char>, device: Seq<char>) -> Seq<char>;

    /// Returns the status line for the pair, exactly as `info_spec` says.
    fn get_device_info(&self, room: &str, name: &str) -> (r: String)
        ensures
            r@ == self.info_spec(room@, name@),
    ;
}

/// The report lines for one room's devices: one provider line per device,
/// each followed by a line break, in device order.
pub open spec fn devices_report<P: DeviceInfoProvider>(
    p: &P,
    room: Seq<char>,
    devs: Seq<Seq<char>>,
) -> Seq<char>
    decreases devs.len(),
{
    if devs.len() == 0 {
        Seq::empty()
    } else {
        devices_report(p, room, devs.drop_last()) + p.info_spec(room, devs.last()) + seq!['\n']
    }
}

/// The report body for the given rooms of a house, in room order.
pub open spec fn rooms_report<P: DeviceInfoProvider>(
    p: &P,
    house: &SmartHouse,
    rooms: Seq<Seq<char>>,
) -> Seq<char>
    decreases rooms.len(),
{
    if rooms.len() == 0 {
        Seq::empty()
    } else {
        rooms_report(p, house, rooms.drop_last()) + devices_report(
            p,
            rooms.last(),
            house.device_list(rooms.last()),
        )
    }
}

impl SmartHouse {
    /// Builds the report: a fixed header line, then for every room, for
    /// every device in it, the provider's status line for that pair.
    pub fn create_report<P: DeviceInfoProvider>(&self, informer: &P) -> (report: String)
        requires
            self.wf(),
        ensures
            report@ == "Report: \n"@ + rooms_report(informer, self, self.room_list()),
    {
        let mut report: String = "Report: \n".to_owned();
        proof {
            assert(report@ =~= "Report: \n"@ + rooms_report(
                informer,
                self,
                self.room_list().take(0),
            ));
        }
        let mut i: usize = 0;
        while i < self.rooms.len()
            invariant
                self.wf(),
                i <= self.rooms@.len(),
                report@ == "Report: \n"@ + rooms_report(
                    informer,
                    self,
                    self.room_list().take(i as int),
                ),
            decreases self.rooms@.len() - i,
        {
            let ghost room_k = self.rooms@[i as int].name@;
            let ghost devs = self.rooms@[i as int].devices.deep_view();
            let ghost prefix = "Report: \n"@ + rooms_report(
                informer,
                self,
                self.room_list().take(i as int),
            );
            let mut j: usize = 0;
            proof {
                assert(report@ =~= prefix + devices_report(informer, room_k, devs.take(0)));
            }
            while j < self.rooms[i].devices.len()
                invariant
                    i < self.rooms@.len(),
                    j <= self.rooms@[i as int].devices@.len(),
                    room_k == self.rooms@[i as int].name@,
                    devs == self.rooms@[i as int].devices.deep_view(),
                    report@ == prefix + devices_report(informer, room_k, devs.take(j as int)),
                decreases self.rooms@[i as int].devices@.len() - j,
            {
                let info = informer.get_device_info(
                    self.rooms[i].name.as_str(),
                    self.rooms[i].devices[j].as_str(),
                );
                report.append(info.as_str());
                report.append("\n");
                proof {
                    reveal_strlit("\n");
                    assert(devs.take(j as int + 1).drop_last() =~= devs.take(j as int));
                    assert(devs.take(j as int + 1).last() == devs[j as int]);
                    assert("\n"@ =~= seq!['\n']);
                    assert(report@ =~= prefix + devices_report(
                        informer,
                        room_k,
                        devs.take(j as int + 1),
                    ));
                }
                j = j + 1;
            }
            proof {
                let names = self.room_list();
                assert(names.take(i as int + 1).drop_last() =~= names.take(i as int));
                assert(names.take(i as int + 1).last() == names[i as int]);
                assert(names[i as int] == room_k);
                lemma_devices_of_found(self.rooms@, i as int, room_k);
                assert(self.device_list(room_k) == devs);
                assert(devs.take(self.rooms@[i as int].devices@.len() as int) =~= devs);
                assert(report@ =~= "Report: \n"@ + rooms_report(
                    informer,
                    self,
                    names.take(i as int + 1),
                ));
            }
            i = i + 1;
        }
        proof {
            assert(self.room_list().take(self.rooms@.len() as int) =~= self.room_list());
        }
        report
    }
}

/// The index of the first entry whose view matches `name`, if any.
fn find_name(list: &Vec<String>, name: &str) -> (r: Option<usize>)
    ensures
        match r {
            Some(j) => {
                &&& j < list@.len()
                &&& list@[j as int]@ == name@
                &&& forall|l: int| 0 <= l < j ==> list@[l]@ != name@
                &&& list.deep_view().contains(name@)
            },
            None => !list.deep_view().contains(name@),
        },
{
    let key: String = name.to_owned();
    let mut j: usize = 0;
    while j < list.len()
        invariant
            j <= list@.len(),
            key@ == name@,
            forall|l: int| 0 <= l < j ==> list@[l]@ != name@,
        decreases list@.len() - j,
    {
        if list[j] == key {
            proof {
                assert(list.deep_view()[j as int] == name@);
            }
            return Some(j);
        }
        j = j + 1;
    }
    proof {
        assert forall|l: int| 0 <= l < list.deep_view().len()
            implies list.deep_view()[l] != name@ by {
            assert(list@[l]@ != name@);
        }
    }
    None
}

/// A name that a list does not contain occurs zero times in it.
proof fn lemma_count_in_absent(s: Seq<Seq<char>>, x: Seq<char>)
    requires
        !s.contains(x),
    ensures
        count_in(s, x) == 0,
    decreases s.len(),
{
    if s.len() > 0 {
        if s.last() == x {
            assert(s[s.len() - 1] == x);
            assert(false);
        }
        assert(!s.drop_last().contains(x)) by {
            if s.drop_last().contains(x) {
                let i = choose|i: int| 0 <= i < s.drop_last().len() && s.drop_last()[i] == x;
                assert(s[i] == x);
            }
        }
        lemma_count_in_absent(s.drop_last(), x);
    }
}

/// A duplicate-free list that contains a name holds it exactly once.
proof fn lemma_count_in_distinct(s: Seq<Seq<char>>, x: Seq<char>)
    requires
        distinct_names(s),
        s.contains(x),
    ensures
        count_in(s, x) == 1,
    decreases s.len(),
{
    let w = choose|i: int| 0 <= i < s.len() && s[i] == x;
    if s.last() == x {
        assert(!s.drop_last().contains(x)) by {
            if s.drop_last().contains(x) {
                let i = choose|i: int| 0 <= i < s.drop_last().len() && s.drop_last()[i] == x;
                assert(s[i] == x);
                assert(s[i] != s[s.len() - 1]);
            }
        }
        lemma_count_in_absent(s.drop_last(), x);
    } else {
        assert(w < s.len() - 1);
        assert(s.drop_last()[w] == x);
        assert(s.drop_last().contains(x));
        assert(distinct_names(s.drop_last())) by {
            assert forall|i: int, j: int| 0 <= i < j < s.drop_last().len()
                implies s.drop_last()[i] != s.drop_last()[j] by {
                assert(s.drop_last()[i] == s[i]);
                assert(s.drop_last()[j] == s[j]);
            }
        }
        lemma_count_in_distinct(s.drop_last(), x);
    }
}

/// Idempotent insertion into a duplicate-free list: the inserted name is
/// listed exactly once afterwards, inserting it again changes nothing, and
/// the list stays duplicate-free.
pub proof fn lemma_insert_name_once(s: Seq<Seq<char>>, x: Seq<char>)
    requires
        distinct_names(s),
    ensures
        insert_name(s, x).contains(x),
        count_in(insert_name(s, x), x) == 1,
        insert_name(insert_name(s, x), x) == insert_name(s, x),
        distinct_names(insert_name(s, x)),
{
    let t = insert_name(s, x);
    if s.contains(x) {
        lemma_count_in_distinct(s, x);
    } else {
        assert(t[t.len() - 1] == x);
        assert(t.contains(x));
        assert(distinct_names(t)) by {
            assert forall|i: int, j: int| 0 <= i < j < t.len() implies t[i] != t[j] by {
                if j == t.len() - 1 {
                    assert(t[i] == s[i]);
                    if s[i] == x {
                        assert(s.contains(x));
                    }
                } else {
                    assert(t[i] == s[i] && t[j] == s[j]);
                }
            }
        }
        lemma_count_in_distinct(t, x);
    }
}

/// Removing a name from a duplicate-free list drives it out entirely and
/// keeps the list duplicate-free; a name never listed leaves the list as it
/// was.
pub proof fn lemma_remove_name(s: Seq<Seq<char>>, x: Seq<char>)
    requires
        distinct_names(s),
    ensures
        !remove_name(s, x).contains(x),
        distinct_names(remove_name(s, x)),
        !s.contains(x) ==> remove_name(s, x) == s,
        s.contains(x) ==> remove_name(s, x).len() == s.len() - 1,
{
    s.index_of_first_ensures(x);
    if s.contains(x) {
        let fi = s.index_of_first(x)->Some_0;
        s.remove_ensures(fi);
        let t = s.remove(fi);
        assert(!t.contains(x)) by {
            if t.contains(x) {
                let l = choose|l: int| 0 <= l < t.len() && t[l] == x;
                if l < fi {
                    assert(s[l] == x);
                } else {
                    assert(s[l + 1] == x);
                    assert(s[fi] == x);
                    assert(s[fi] != s[l + 1]);
                }
            }
        }
        assert(distinct_names(t)) by {
            assert forall|i: int, j: int| 0 <= i < j < t.len() implies t[i] != t[j] by {
                if j < fi {
                    assert(t[i] == s[i] && t[j] == s[j]);
                } else if i < fi {
                    assert(t[i] == s[i] && t[j] == s[j + 1]);
                } else {
                    assert(t[i] == s[i + 1] && t[j] == s[j + 1]);
                }
            }
        }
    }
}

/// Adding a room is idempotent: after `add_room`, the room's name stands in
/// the room list exactly once, no matter how often the call is repeated.
pub proof fn lemma_add_room_idempotent(house: SmartHouse, name: Seq<char>)
    requires
        house.wf(),
    ensures
        count_in(insert_name(house.room_list(), name), name) == 1,
        insert_name(insert_name(house.room_list(), name), name) == insert_name(
            house.room_list(),
            name,
        ),
        distinct_names(insert_name(house.room_list(), name)),
{
    lemma_insert_name_once(house.room_list(), name);
}

/// Adding a device to a room is idempotent: after `add_device`, the device
/// stands in that room's device list exactly once, no matter how often the
/// call is repeated.
pub proof fn lemma_add_device_idempotent(house: SmartHouse, room: Seq<char>, device: Seq<char>)
    requires
        house.wf(),
    ensures
        count_in(insert_name(house.device_list(room), device), device) == 1,
        insert_name(insert_name(house.device_list(room), device), device) == insert_name(
            house.device_list(room),
            device,
        ),
{
    assert(distinct_names(house.device_list(room)));
    lemma_insert_name_once(house.device_list(room), device);
}

/// Round trip: adding a device and then removing it leaves the room's
/// device list without that device.
pub proof fn lemma_add_then_remove_device(house: SmartHouse, room: Seq<char>, device: Seq<char>)
    requires
        house.wf(),
    ensures
        !remove_name(insert_name(house.device_list(room), device), device).contains(device),
{
    assert(distinct_names(house.device_list(room)));
    lemma_insert_name_once(house.device_list(room), device);
    lemma_remove_name(insert_name(house.device_list(room), device), device);
}

/// Without its first element a duplicate-free list stays duplicate-free.
proof fn lemma_distinct_names_drop_first(s: Seq<Seq<char>>)
    requires
        distinct_names(s),
        s.len() > 0,
    ensures
        distinct_names(s.drop_first()),
{
    assert forall|i: int, j: int| 0 <= i < j < s.drop_first().len()
        implies s.drop_first()[i] != s.drop_first()[j] by {
        assert(s.drop_first()[i] == s[i + 1]);
        assert(s.drop_first()[j] == s[j + 1]);
    }
}

/// With unique room names, the device list of the name found at index `i`
/// is exactly that room's devices.
proof fn lemma_devices_of_found(rooms: Seq<Room>, i: int, k: Seq<char>)
    requires
        0 <= i < rooms.len(),
        rooms[i].name@ == k,
        distinct_names(name_views(rooms)),
    ensures
        devices_of(rooms, k) == rooms[i].devices.deep_view(),
    decreases i,
{
    if i > 0 {
        assert(name_views(rooms)[0] != name_views(rooms)[i]);
        assert(rooms[0].name@ != k);
        assert(name_views(rooms.drop_first()) =~= name_views(rooms).drop_first());
        lemma_distinct_names_drop_first(name_views(rooms));
        assert(rooms.drop_first()[i - 1] == rooms[i]);
        lemma_devices_of_found(rooms.drop_first(), i - 1, k);
    }
}

/// Replacing the room at index `i` by one of the same name leaves the
/// device list of every other name unchanged.
proof fn lemma_devices_of_update_other(rooms: Seq<Room>, i: int, r2: Room, k: Seq<char>)
    requires
        0 <= i < rooms.len(),
        r2.name@ == rooms[i].name@,
        k != rooms[i].name@,
    ensures
        devices_of(rooms.update(i, r2), k) == devices_of(rooms, k),
    decreases i,
{
    let upd = rooms.update(i, r2);
    if i == 0 {
        assert(upd[0] == r2);
        assert(upd.drop_first() =~= rooms.drop_first());
    } else {
        assert(upd[0] == rooms[0]);
        if rooms[0].name@ != k {
            assert(upd.drop_first() =~= rooms.drop_first().update(i - 1, r2));
            assert(rooms.drop_first()[i - 1] == rooms[i]);
            lemma_devices_of_update_other(rooms.drop_first(), i - 1, r2, k);
        }
    }
}

/// Removing the room at index `i` leaves the device list of every name
/// other than that room's unchanged, when room names are unique.
proof fn lemma_devices_of_remove(rooms: Seq<Room>, i: int, k: Seq<char>)
    requires
        0 <= i < rooms.len(),
        rooms[i].name@ != k,
        distinct_names(name_views(rooms)),
    ensures
        devices_of(rooms.remove(i), k) == devices_of(rooms, k),
    decreases i,
{
    let rem = rooms.remove(i);
    if i == 0 {
        assert(rem =~= rooms.drop_first());
    } else {
        assert(rem[0] == rooms[0]);
        if rooms[0].name@ != k {
            assert(rem.drop_first() =~= rooms.drop_first().remove(i - 1));
            assert(rooms.drop_first()[i - 1] == rooms[i]);
            assert(name_views(rooms.drop_first()) =~= name_views(rooms).drop_first());
            lemma_distinct_names_drop_first(name_views(rooms));
            lemma_devices_of_remove(rooms.drop_first(), i - 1, k);
        }
    }
}

/// A name that no room carries answers with the empty device list.
proof fn lemma_devices_of_absent(rooms: Seq<Room>, k: Seq<char>)
    requires
        !name_views(rooms).contains(k),
    ensures
        devices_of(rooms, k) == Seq::<Seq<char>>::empty(),
    decreases rooms.len(),
{
    if rooms.len() > 0 {
        assert(name_views(rooms)[0] == rooms[0].name@);
        assert(rooms[0].name@ != k);
        assert(!name_views(rooms.drop_first()).contains(k)) by {
            if name_views(rooms.drop_first()).contains(k) {
                let i = choose|i: int|
                    0 <= i < name_views(rooms.drop_first()).len() && name_views(
                        rooms.drop_first(),
                    )[i] == k;
                assert(name_views(rooms)[i + 1] == k);
            }
        }
        lemma_devices_of_absent(rooms.drop_first(), k);
    }
}

/// The same, stated for every name at once.
proof fn lemma_devices_of_push_all(rooms: Seq<Room>, r: Room)
    ensures
        forall|k: Seq<char>|
            #[trigger] devices_of(rooms.push(r), k) == if name_views(rooms).contains(k) {
                devices_of(rooms, k)
            } else if r.name@ == k {
                r.devices.deep_view()
            } else {
                Seq::<Seq<char>>::empty()
            },
{
    assert forall|k: Seq<char>|
        #[trigger] devices_of(rooms.push(r), k) == if name_views(rooms).contains(k) {
            devices_of(rooms, k)
        } else if r.name@ == k {
            r.devices.deep_view()
        } else {
            Seq::<Seq<char>>::empty()
        } by {
        lemma_devices_of_push(rooms, r, k);
    }
}

} // verus!
