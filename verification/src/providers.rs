use vstd::prelude::*;

verus! {

/// Capability interface that decouples the report engine from the source of
/// "what to report on": any implementer supplies an ordered list of
/// (room name, device name) pairs. The order of the list determines the
/// order of the report's entries; the entries need not be unique, and the
/// names they carry need not exist in the house.
pub trait DeviceInfoProvider {
    /// The entries this provider supplies, as a mathematical sequence of
    /// (room name, device name) pairs.
    spec fn spec_entries(&self) -> Seq<(Seq<char>, Seq<char>)>;

    /// The ordered list of (room name, device name) pairs to report on.
    fn get_devices_info(&self) -> (entries: Vec<(String, String)>)
        ensures
            entries@.map_values(|p: (String, String)| (p.0@, p.1@)) == self.spec_entries(),
    ;
}

/// A provider backed by a fixed list of (room name, device name) pairs.
pub struct CustomProvider {
    pub devices: Vec<(String, String)>,
}

impl CustomProvider {
    pub fn new(devices: Vec<(String, String)>) -> (provider: CustomProvider)
        ensures
            provider.devices == devices,
    {
        CustomProvider { devices }
    }
}

impl DeviceInfoProvider for CustomProvider {
    open spec fn spec_entries(&self) -> Seq<(Seq<char>, Seq<char>)> {
        self.devices@.map_values(|p: (String, String)| (p.0@, p.1@))
    }

    fn get_devices_info(&self) -> (entries: Vec<(String, String)>) {
        let mut entries: Vec<(String, String)> = Vec::new();
        let mut i: usize = 0;
        while i < self.devices.len()
            invariant
                i <= self.devices.len(),
                entries@.len() == i,
                forall|j: int| 0 <= j < i ==> entries@[j] == self.devices@[j],
            decreases self.devices.len() - i,
        {
            let pair = &self.devices[i];
            entries.push((pair.0.clone(), pair.1.clone()));
            i += 1;
        }
        proof {
            assert(entries@.map_values(|p: (String, String)| (p.0@, p.1@))
                =~= self.spec_entries());
        }
        entries
    }
}

} // verus!
