use crate::error::SmartHouseError;
use crate::providers::DeviceInfoProvider;
use vstd::prelude::*;
use vstd::string::StringExecFns;

verus! {

/// A named device with a free-form state string (for example "on" or "off").
/// Immutable after creation; owned exclusively by its room.
#[derive(Debug, PartialEq, Eq, Clone)]
pub struct Device {
    pub name: String,
    pub state: String,
}

impl Device {
    pub fn new(name: String, state: String) -> (device: Device)
        ensures
            device.name == name,
            device.state == state,
    {
        Device { name, state }
    }
}

/// A named room owning an ordered sequence of devices.
#[derive(Debug, PartialEq, Eq, Clone)]
pub struct Room {
    pub name: String,
    pub devices: Vec<Device>,
}

impl Room {
    pub fn new(name: String, devices: Vec<Device>) -> (room: Room)
        ensures
            room.name == name,
            room.devices == devices,
    {
        Room { name, devices }
    }

    /// The names of this room's devices, in room order.
    pub open spec fn spec_device_names(&self) -> Seq<Seq<char>> {
        self.devices@.map_values(|d: Device| d.name@)
    }
}

/// The root of the house tree: a named house owning an ordered sequence of
/// rooms. All lookups are top-down by name, first match wins.
#[derive(Debug, Clone)]
pub struct SmartHouse {
    pub name: String,
    pub rooms: Vec<Room>,
}

/// The first device of `devices` whose name is `name`, if any.
pub open spec fn first_device_match(devices: Seq<Device>, name: Seq<char>) -> Option<Device>
    decreases devices.len(),
{
    if devices.len() == 0 {
        None
    } else if devices[0].name@ == name {
        Some(devices[0])
    } else {
        first_device_match(devices.drop_first(), name)
    }
}

/// The first room of `rooms` whose name is `name`, if any.
pub open spec fn first_room_match(rooms: Seq<Room>, name: Seq<char>) -> Option<Room>
    decreases rooms.len(),
{
    if rooms.len() == 0 {
        None
    } else if rooms[0].name@ == name {
        Some(rooms[0])
    } else {
        first_room_match(rooms.drop_first(), name)
    }
}

impl SmartHouse {
    /// The names of the house's rooms, in house order.
    pub open spec fn spec_room_names(&self) -> Seq<Seq<char>> {
        self.rooms@.map_values(|r: Room| r.name@)
    }

    /// The first room called `name`, if any.
    pub open spec fn spec_find_room(&self, name: Seq<char>) -> Option<Room> {
        first_room_match(self.rooms@, name)
    }

    /// Whether some room of the house is called `name`.
    pub open spec fn spec_room_exists(&self, name: Seq<char>) -> bool {
        self.spec_find_room(name) is Some
    }

    /// The first device called `device_name` in the first room called
    /// `room_name`, if both exist.
    pub open spec fn spec_find_device(
        &self,
        room_name: Seq<char>,
        device_name: Seq<char>,
    ) -> Option<Device> {
        match self.spec_find_room(room_name) {
            Some(room) => first_device_match(room.devices@, device_name),
            None => None,
        }
    }

    /// Whether the room called `room_name` exists and contains a device
    /// called `device_name`.
    pub open spec fn spec_device_exists(
        &self,
        room_name: Seq<char>,
        device_name: Seq<char>,
    ) -> bool {
        self.spec_find_device(room_name, device_name) is Some
    }

    /// The device names of the first room called `room_name`, in room order
    /// (meaningful only when that room exists).
    pub open spec fn spec_device_names(&self, room_name: Seq<char>) -> Seq<Seq<char>> {
        self.spec_find_room(room_name)->Some_0.spec_device_names()
    }
}

proof fn lemma_first_room_match_at(rooms: Seq<Room>, name: Seq<char>, i: int)
    requires
        0 <= i < rooms.len(),
        rooms[i].name@ == name,
        forall|j: int| 0 <= j < i ==> rooms[j].name@ != name,
    ensures
        first_room_match(rooms, name) == Some(rooms[i]),
    decreases i,
{
    if i > 0 {
        assert(rooms.drop_first()[i - 1] == rooms[i]);
        assert(forall|j: int| 0 <= j < i - 1 ==> rooms.drop_first()[j].name@ != name);
        lemma_first_room_match_at(rooms.drop_first(), name, i - 1);
    }
}

proof fn lemma_first_room_match_iff_found(rooms: Seq<Room>, name: Seq<char>)
    ensures
        first_room_match(rooms, name) is Some <==> exists|i: int|
            0 <= i < rooms.len() && rooms[i].name@ == name,
    decreases rooms.len(),
{
    if rooms.len() > 0 && rooms[0].name@ != name {
        lemma_first_room_match_iff_found(rooms.drop_first(), name);
        if first_room_match(rooms, name) is Some {
            let i = choose|i: int|
                0 <= i < rooms.drop_first().len() && rooms.drop_first()[i].name@ == name;
            assert(rooms[i + 1].name@ == name);
        }
        if exists|i: int| 0 <= i < rooms.len() && rooms[i].name@ == name {
            let i = choose|i: int| 0 <= i < rooms.len() && rooms[i].name@ == name;
            assert(rooms.drop_first()[i - 1].name@ == name);
        }
    }
}

proof fn lemma_first_device_match_at(devices: Seq<Device>, name: Seq<char>, i: int)
    requires
        0 <= i < devices.len(),
        devices[i].name@ == name,
        forall|j: int| 0 <= j < i ==> devices[j].name@ != name,
    ensures
        first_device_match(devices, name) == Some(devices[i]),
    decreases i,
{
    if i > 0 {
        assert(devices.drop_first()[i - 1] == devices[i]);
        assert(forall|j: int| 0 <= j < i - 1 ==> devices.drop_first()[j].name@ != name);
        lemma_first_device_match_at(devices.drop_first(), name, i - 1);
    }
}

proof fn lemma_first_device_match_iff_found(devices: Seq<Device>, name: Seq<char>)
    ensures
        first_device_match(devices, name) is Some <==> exists|i: int|
            0 <= i < devices.len() && devices[i].name@ == name,
    decreases devices.len(),
{
    if devices.len() > 0 && devices[0].name@ != name {
        lemma_first_device_match_iff_found(devices.drop_first(), name);
        if first_device_match(devices, name) is Some {
            let i = choose|i: int|
                0 <= i < devices.drop_first().len() && devices.drop_first()[i].name@ == name;
            assert(devices[i + 1].name@ == name);
        }
        if exists|i: int| 0 <= i < devices.len() && devices[i].name@ == name {
            let i = choose|i: int| 0 <= i < devices.len() && devices[i].name@ == name;
            assert(devices.drop_first()[i - 1].name@ == name);
        }
    }
}

/// A room name is found by lookup exactly when it occurs among the house's
/// room names.
pub proof fn lemma_room_exists_iff_named(house: SmartHouse, name: Seq<char>)
    ensures
        house.spec_room_exists(name) <==> house.spec_room_names().contains(name),
{
    lemma_first_room_match_iff_found(house.rooms@, name);
    if house.spec_room_exists(name) {
        let i = choose|i: int| 0 <= i < house.rooms@.len() && house.rooms@[i].name@ == name;
        assert(house.spec_room_names()[i] == name);
    }
    if house.spec_room_names().contains(name) {
        let i = choose|i: int|
            0 <= i < house.spec_room_names().len() && house.spec_room_names()[i] == name;
        assert(house.rooms@[i].name@ == name);
    }
}

/// For an existing room, a device name is found by lookup exactly when it
/// occurs among that room's device names.
pub proof fn lemma_device_exists_iff_listed(
    house: SmartHouse,
    room_name: Seq<char>,
    device_name: Seq<char>,
)
    requires
        house.spec_room_exists(room_name),
    ensures
        house.spec_device_exists(room_name, device_name) <==> house.spec_device_names(
            room_name,
        ).contains(device_name),
{
    let room = house.spec_find_room(room_name)->Some_0;
    lemma_first_device_match_iff_found(room.devices@, device_name);
    if house.spec_device_exists(room_name, device_name) {
        let i = choose|i: int| 0 <= i < room.devices@.len() && room.devices@[i].name@ == device_name;
        assert(room.spec_device_names()[i] == device_name);
    }
    if house.spec_device_names(room_name).contains(device_name) {
        let i = choose|i: int|
            0 <= i < room.spec_device_names().len() && room.spec_device_names()[i] == device_name;
        assert(room.devices@[i].name@ == device_name);
    }
}

/// Relies on str's `PartialEq`: two string slices are equal exactly when
/// they consist of the same characters.
#[verifier::external_body]
fn str_eq(a: &str, b: &str) -> (r: bool)
    ensures
        r == (a@ == b@),
{
    a == b
}

impl SmartHouse {
    pub fn new(name: String, rooms: Vec<Room>) -> (house: SmartHouse)
        ensures
            house.name == name,
            house.rooms == rooms,
    {
        SmartHouse { name, rooms }
    }

    /// Structured lookup of a room by name; first match wins.
    /// Fails with `RoomNotExist` exactly when no room carries the name.
    pub fn get_room(&self, room_name: &str) -> (result: Result<&Room, SmartHouseError>)
        ensures
            result is Ok <==> self.spec_room_exists(room_name@),
            match result {
                Ok(room) => self.spec_find_room(room_name@) == Some(*room),
                Err(e) => e == SmartHouseError::RoomNotExist,
            },
    {
        let mut i: usize = 0;
        while i < self.rooms.len()
            invariant
                i <= self.rooms.len(),
                forall|j: int| 0 <= j < i ==> self.rooms@[j].name@ != room_name@,
            decreases self.rooms.len() - i,
        {
            let room = &self.rooms[i];
            if str_eq(room.name.as_str(), room_name) {
                proof {
                    lemma_first_room_match_at(self.rooms@, room_name@, i as int);
                }
                return Ok(room);
            }
            i += 1;
        }
        proof {
            lemma_first_room_match_iff_found(self.rooms@, room_name@);
        }
        Err(SmartHouseError::RoomNotExist)
    }

    /// The names of all rooms, in house order.
    pub fn rooms(&self) -> (names: Vec<String>)
        ensures
            names@.map_values(|s: String| s@) == self.spec_room_names(),
    {
        let mut names: Vec<String> = Vec::new();
        let mut i: usize = 0;
        while i < self.rooms.len()
            invariant
                i <= self.rooms.len(),
                names@.len() == i,
                forall|j: int| 0 <= j < i ==> names@[j]@ == self.rooms@[j].name@,
            decreases self.rooms.len() - i,
        {
            names.push(self.rooms[i].name.clone());
            i += 1;
        }
        proof {
            assert(names@.map_values(|s: String| s@) =~= self.spec_room_names());
        }
        names
    }

    /// The device names of the named room, in room order.
    /// Fails with `RoomNotExist` exactly when no room carries the name.
    pub fn devices(&self, room_name: &str) -> (result: Result<Vec<String>, SmartHouseError>)
        ensures
            result is Ok <==> self.spec_room_exists(room_name@),
            match result {
                Ok(names) => names@.map_values(|s: String| s@) == self.spec_device_names(
                    room_name@,
                ),
                Err(e) => e == SmartHouseError::RoomNotExist,
            },
    {
        let room = match self.get_room(room_name) {
            Ok(r) => r,
            Err(e) => {
                return Err(e);
            },
        };
        let mut names: Vec<String> = Vec::new();
        let mut i: usize = 0;
        while i < room.devices.len()
            invariant
                i <= room.devices.len(),
                names@.len() == i,
                forall|j: int| 0 <= j < i ==> names@[j]@ == room.devices@[j].name@,
            decreases room.devices.len() - i,
        {
            names.push(room.devices[i].name.clone());
            i += 1;
        }
        proof {
            assert(names@.map_values(|s: String| s@) =~= room.spec_device_names());
        }
        Ok(names)
    }

    /// Structured lookup of a device by room and device name; first match
    /// wins on both levels. Fails with `RoomNotExist` when the room is
    /// missing, and with `DeviceNotExist` when the room exists but holds no
    /// device of that name.
    pub fn get_device(&self, room_name: &str, device_name: &str) -> (result: Result<
        &Device,
        SmartHouseError,
    >)
        ensures
            result is Ok <==> self.spec_device_exists(room_name@, device_name@),
            match result {
                Ok(device) => self.spec_find_device(room_name@, device_name@) == Some(*device),
                Err(e) => e == if self.spec_room_exists(room_name@) {
                    SmartHouseError::DeviceNotExist
                } else {
                    SmartHouseError::RoomNotExist
                },
            },
    {
        let room = match self.get_room(room_name) {
            Ok(r) => r,
            Err(e) => {
                return Err(e);
            },
        };
        let mut i: usize = 0;
        while i < room.devices.len()
            invariant
                i <= room.devices.len(),
                forall|j: int| 0 <= j < i ==> room.devices@[j].name@ != device_name@,
                self.spec_find_room(room_name@) == Some(*room),
            decreases room.devices.len() - i,
        {
            let device = &room.devices[i];
            if str_eq(device.name.as_str(), device_name) {
                proof {
                    lemma_first_device_match_at(room.devices@, device_name@, i as int);
                }
                return Ok(device);
            }
            i += 1;
        }
        proof {
            lemma_first_device_match_iff_found(room.devices@, device_name@);
        }
        Err(SmartHouseError::DeviceNotExist)
    }

    /// Whether some room of the house carries the given name.
    pub fn is_room_exist(&self, room_name: &str) -> (found: bool)
        ensures
            found == self.spec_room_exists(room_name@),
    {
        match self.get_room(room_name) {
            Ok(_) => true,
            Err(_) => false,
        }
    }

    /// Whether the named room exists and contains a device of the given name.
    pub fn is_device_exist(&self, room_name: &str, device_name: &str) -> (found: bool)
        ensures
            found == self.spec_device_exists(room_name@, device_name@),
    {
        match self.get_device(room_name, device_name) {
            Ok(_) => true,
            Err(_) => false,
        }
    }
}

/// The header line of a report for a house called `house_name`.
pub open spec fn spec_header_text(house_name: Seq<char>) -> Seq<char> {
    "Report for house: "@ + house_name + "\n"@
}

/// The report text produced for one requested (room, device) pair: either a
/// single room line saying the room is missing, or a room line followed by a
/// device line carrying the device's state or a device-missing message.
pub open spec fn spec_entry_text(
    house: SmartHouse,
    room_name: Seq<char>,
    device_name: Seq<char>,
) -> Seq<char> {
    let room_prefix = "  Room "@ + room_name + ": "@;
    if !house.spec_room_exists(room_name) {
        room_prefix + "does not exist in the house."@ + "\n"@
    } else {
        let device_prefix = room_prefix + "\n"@ + "    Device "@ + device_name + ": "@;
        match house.spec_find_device(room_name, device_name) {
            Some(device) => device_prefix + device.state@ + "\n"@,
            None => device_prefix + "does not exist in the room "@ + room_name + "."@ + "\n"@,
        }
    }
}

/// The concatenation of the report texts of `entries`, in order.
pub open spec fn spec_entries_text(
    house: SmartHouse,
    entries: Seq<(Seq<char>, Seq<char>)>,
) -> Seq<char>
    decreases entries.len(),
{
    if entries.len() == 0 {
        Seq::empty()
    } else {
        spec_entries_text(house, entries.drop_last()) + spec_entry_text(
            house,
            entries.last().0,
            entries.last().1,
        )
    }
}

/// The complete report: the header line first, then one entry text after the
/// other in provider order.
pub open spec fn spec_report_text(
    house: SmartHouse,
    entries: Seq<(Seq<char>, Seq<char>)>,
) -> Seq<char> {
    spec_header_text(house.name@) + spec_entries_text(house, entries)
}

impl SmartHouse {
    /// Produce the status report for this house and the provider's entries.
    /// Lookup failures are rendered as report text, never surfaced as
    /// failures of the call itself: the report always comes back, entry by
    /// entry in provider order.
    pub fn create_report<T: DeviceInfoProvider>(&self, provider: T) -> (report: String)
        ensures
            report@ == spec_report_text(*self, provider.spec_entries()),
    {
        let ghost entries = provider.spec_entries();
        let mut report = String::new();
        report.append("Report for house: ");
        report.append(self.name.as_str());
        report.append("\n");
        proof {
            assert(entries.take(0) =~= Seq::<(Seq<char>, Seq<char>)>::empty());
            assert(report@ =~= spec_header_text(self.name@) + spec_entries_text(
                *self,
                entries.take(0),
            ));
        }
        let devices_info = provider.get_devices_info();
        let mut i: usize = 0;
        while i < devices_info.len()
            invariant
                i <= devices_info.len(),
                devices_info@.map_values(|p: (String, String)| (p.0@, p.1@)) == entries,
                report@ == spec_header_text(self.name@) + spec_entries_text(
                    *self,
                    entries.take(i as int),
                ),
            decreases devices_info.len() - i,
        {
            let pair = &devices_info[i];
            proof {
                assert((pair.0@, pair.1@) == entries[i as int]);
            }
            report.append("  Room ");
            report.append(pair.0.as_str());
            report.append(": ");
            match self.get_room(pair.0.as_str()) {
                Err(_) => {
                    report.append("does not exist in the house.");
                    report.append("\n");
                },
                Ok(_) => {
                    report.append("\n");
                    report.append("    Device ");
                    report.append(pair.1.as_str());
                    report.append(": ");
                    match self.get_device(pair.0.as_str(), pair.1.as_str()) {
                        Ok(device) => {
                            report.append(device.state.as_str());
                            report.append("\n");
                        },
                        Err(_) => {
                            report.append("does not exist in the room ");
                            report.append(pair.0.as_str());
                            report.append(".");
                            report.append("\n");
                        },
                    }
                },
            }
            proof {
                assert(entries.take(i as int + 1).drop_last() =~= entries.take(i as int));
                assert(entries.take(i as int + 1).last() == entries[i as int]);
                assert(report@ =~= spec_header_text(self.name@) + spec_entries_text(
                    *self,
                    entries.take(i as int + 1),
                ));
            }
            i += 1;
        }
        proof {
            assert(entries.take(devices_info@.len() as int) =~= entries);
        }
        report
    }
}

/// Appending two entry lists appends their report texts: every entry's text
/// depends on that entry and the house alone, and stands in list order.
pub proof fn lemma_entries_text_append(
    house: SmartHouse,
    first: Seq<(Seq<char>, Seq<char>)>,
    second: Seq<(Seq<char>, Seq<char>)>,
)
    ensures
        spec_entries_text(house, first + second) == spec_entries_text(house, first)
            + spec_entries_text(house, second),
    decreases second.len(),
{
    if second.len() == 0 {
        assert(first + second =~= first);
        assert(spec_entries_text(house, first) + spec_entries_text(house, second)
            =~= spec_entries_text(house, first));
    } else {
        lemma_entries_text_append(house, first, second.drop_last());
        assert((first + second).drop_last() =~= first + second.drop_last());
        assert((first + second).last() == second.last());
        assert(spec_entries_text(house, first + second) =~= spec_entries_text(house, first)
            + spec_entries_text(house, second));
    }
}

/// Order preservation: the report text of entry `i` stands exactly after the
/// texts of all earlier entries and before the texts of all later ones,
/// regardless of room or device validity.
pub proof fn lemma_report_order(house: SmartHouse, entries: Seq<(Seq<char>, Seq<char>)>, i: int)
    requires
        0 <= i < entries.len(),
    ensures
        spec_entries_text(house, entries) == spec_entries_text(house, entries.take(i))
            + spec_entry_text(house, entries[i].0, entries[i].1) + spec_entries_text(
            house,
            entries.skip(i + 1),
        ),
{
    assert(entries =~= entries.take(i) + seq![entries[i]] + entries.skip(i + 1));
    lemma_entries_text_append(house, entries.take(i) + seq![entries[i]], entries.skip(i + 1));
    lemma_entries_text_append(house, entries.take(i), seq![entries[i]]);
    let single = seq![entries[i]];
    assert(single.drop_last() =~= Seq::<(Seq<char>, Seq<char>)>::empty());
    assert(spec_entries_text(house, single.drop_last()) =~= Seq::<char>::empty());
    assert(single.last() == entries[i]);
    assert(spec_entries_text(house, single) =~= spec_entry_text(
        house,
        entries[i].0,
        entries[i].1,
    ));
}

/// Partial failure isolation: two entry lists of the same length that agree
/// everywhere but at position `i` produce reports that differ at most in the
/// text of entry `i`; the text of every other entry is unchanged.
pub proof fn lemma_entry_isolation(
    house: SmartHouse,
    first: Seq<(Seq<char>, Seq<char>)>,
    second: Seq<(Seq<char>, Seq<char>)>,
    i: int,
)
    requires
        0 <= i < first.len(),
        first.len() == second.len(),
        forall|j: int| 0 <= j < first.len() && j != i ==> first[j] == second[j],
    ensures
        spec_entries_text(house, first) == spec_entries_text(house, first.take(i))
            + spec_entry_text(house, first[i].0, first[i].1) + spec_entries_text(
            house,
            first.skip(i + 1),
        ),
        spec_entries_text(house, second) == spec_entries_text(house, first.take(i))
            + spec_entry_text(house, second[i].0, second[i].1) + spec_entries_text(
            house,
            first.skip(i + 1),
        ),
{
    assert(first.take(i) =~= second.take(i));
    assert(first.skip(i + 1) =~= second.skip(i + 1));
    lemma_report_order(house, first, i);
    lemma_report_order(house, second, i);
}

/// The report engine is deterministic: two reports built from the same house
/// model and the same provider entries are identical.
pub proof fn lemma_report_idempotent(
    house: SmartHouse,
    entries: Seq<(Seq<char>, Seq<char>)>,
    first_report: Seq<char>,
    second_report: Seq<char>,
)
    requires
        first_report == spec_report_text(house, entries),
        second_report == spec_report_text(house, entries),
    ensures
        first_report == second_report,
{
}

/// Boundary: a provider with zero entries produces a report holding only the
/// header line.
pub proof fn lemma_report_empty(house: SmartHouse)
    ensures
        spec_report_text(house, Seq::empty()) == spec_header_text(house.name@),
{
    assert(spec_header_text(house.name@) + spec_entries_text(house, Seq::empty())
        =~= spec_header_text(house.name@));
}

} // verus!
