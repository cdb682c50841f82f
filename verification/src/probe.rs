//! Probes: the sensors found on the one-wire bus, each with its display
//! name, its calibration offset and the path of its status file.

use vstd::prelude::*;
use vstd::string::*;
use std::io::ErrorKind;
use crate::decimal::{append_decimal, decimal_text};
use crate::sensor::{parse_temperature_data, reading_of, ReadError};
use crate::table::Table;
use crate::text::{chars_of, matches_at, occurs_at};

verus! {

/// `std::io::ErrorKind`, with its variants: the kinds of failure that a
/// read of a file reports.
#[verifier::external_type_specification]
pub struct ExErrorKind(std::io::ErrorKind);

/// The class under which a failed read of a status file is counted.
pub open spec fn class_of(kind: ErrorKind) -> ReadError {
    match kind {
        ErrorKind::NotFound => ReadError::NotFound,
        ErrorKind::PermissionDenied => ReadError::PermissionDenied,
        ErrorKind::InvalidData => ReadError::InvalidData,
        _ => ReadError::Other,
    }
}

/// Sorts a failed read into one of the four classes.
pub fn classify(kind: ErrorKind) -> (class: ReadError)
    ensures
        class == class_of(kind),
{
    match kind {
        ErrorKind::NotFound => ReadError::NotFound,
        ErrorKind::PermissionDenied => ReadError::PermissionDenied,
        ErrorKind::InvalidData => ReadError::InvalidData,
        _ => ReadError::Other,
    }
}

/// The directory in which the driver lists the devices on the bus.
pub open spec fn devices_dir() -> Seq<char> {
    "/sys/bus/w1/devices"@
}

/// The prefix of the hardware ids of the temperature sensor family.
pub open spec fn family_prefix() -> Seq<char> {
    seq!['2', '8', '-']
}

/// `id` names a sensor of the temperature family.
pub open spec fn is_sensor_id(id: Seq<char>) -> bool {
    occurs_at(id, family_prefix(), 0)
}

/// The status file of the sensor `id`.
pub open spec fn status_path(id: Seq<char>) -> Seq<char> {
    devices_dir() + "/"@ + id + "/w1_slave"@
}

/// The length of `path` up to and including its last `/`: where the file
/// name begins.
pub open spec fn file_name_start(path: Seq<char>) -> int
    decreases path.len(),
{
    if path.len() == 0 {
        0
    } else if path.last() == '/' {
        path.len() as int
    } else {
        file_name_start(path.drop_last())
    }
}

/// The control file beside the status file `path`, through which the
/// resolution of the sensor is set.
pub open spec fn resolution_path(path: Seq<char>) -> Seq<char> {
    path.take(file_name_start(path)) + "resolution"@
}

/// The control file of a sensor stands in the sensor's own directory,
/// beside its status file.
pub proof fn lemma_resolution_beside_status(id: Seq<char>)
    ensures
        resolution_path(status_path(id)) == devices_dir() + "/"@ + id + "/resolution"@,
{
    reveal_strlit("/w1_slave");
    reveal_strlit("/resolution");
    reveal_strlit("resolution");
    let folder = devices_dir() + "/"@ + id;
    lemma_file_name_after(folder + seq!['/'], "/w1_slave"@.skip(1));
    assert("/w1_slave"@ =~= seq!['/'] + "/w1_slave"@.skip(1));
    assert(status_path(id) =~= folder + seq!['/'] + "/w1_slave"@.skip(1));
    assert(status_path(id).take(folder.len() as int + 1) =~= folder + seq!['/']);
    assert("/resolution"@ =~= seq!['/'] + "resolution"@);
    assert(folder + seq!['/'] + "resolution"@ =~= folder + "/resolution"@);
}

/// Where a path ends in a `/` followed by a name without one, the file
/// name begins behind that `/`.
proof fn lemma_file_name_after(folder: Seq<char>, name: Seq<char>)
    requires
        folder.len() > 0,
        folder.last() == '/',
        forall|i: int| 0 <= i < name.len() ==> name[i] != '/',
    ensures
        file_name_start(folder + name) == folder.len(),
    decreases name.len(),
{
    let path = folder + name;
    if name.len() == 0 {
        assert(path =~= folder);
    } else {
        assert(path.last() == name.last());
        assert(path.drop_last() =~= folder + name.drop_last());
        lemma_file_name_after(folder, name.drop_last());
    }
}

/// A write that is left to the caller to carry out.
#[derive(Debug)]
pub struct FileWrite {
    pub path: String,
    pub content: String,
}

/// What a probe is, as plain values.
pub struct ProbeView {
    pub id: Seq<char>,
    pub name: Seq<char>,
    pub offset: i32,
    pub path: Seq<char>,
}

/// One sensor on the bus.
#[derive(Debug)]
pub struct Probe {
    /// The hardware id, as the sensor reports it.
    pub id: String,
    /// The name under which readings are shown and counted.
    pub name: String,
    /// The correction added to each raw reading, in thousandths of a
    /// degree.
    pub offset: i32,
    /// The status file from which readings are taken.
    pub path: String,
}

impl View for Probe {
    type V = ProbeView;

    open spec fn view(&self) -> ProbeView {
        ProbeView { id: self.id@, name: self.name@, offset: self.offset, path: self.path@ }
    }
}

/// The probe that stands for the sensor `id` under the given
/// configuration: its label, or the id itself where it has none; its
/// offset, or none at all.
pub open spec fn resolved(
    id: Seq<char>,
    labels: Map<Seq<char>, String>,
    offsets: Map<Seq<char>, i32>,
) -> ProbeView {
    ProbeView {
        id,
        name: if labels.contains_key(id) {
            labels[id]@
        } else {
            id
        },
        offset: if offsets.contains_key(id) {
            offsets[id]
        } else {
            0i32
        },
        path: status_path(id),
    }
}

impl Probe {
    /// Resolves the sensor `id` against the configured labels and offsets.
    pub fn resolve(id: &str, labels: &Table<String>, offsets: &Table<i32>) -> (probe: Probe)
        ensures
            probe@ == resolved(id@, labels@, offsets@),
    {
        let name = match labels.get(id) {
            Some(label) => label.clone(),
            None => String::from_str(id),
        };
        let offset = match offsets.get(id) {
            Some(offset) => *offset,
            None => 0,
        };
        let mut path = String::from_str("/sys/bus/w1/devices");
        path.append("/");
        path.append(id);
        path.append("/w1_slave");
        Probe { id: String::from_str(id), name, offset, path }
    }

    /// The write that asks the sensor for `bits` of resolution: the number
    /// in decimal, into the control file beside the status file.
    pub fn set_resolution(&self, bits: u8) -> (write: FileWrite)
        ensures
            write.path@ == resolution_path(self@.path),
            write.content@ == decimal_text(bits as nat),
    {
        let chars = chars_of(self.path.as_str());
        let mut start: usize = chars.len();
        assert(chars@.take(start as int) =~= chars@);
        while start > 0 && chars[start - 1] != '/'
            invariant
                start <= chars.len(),
                file_name_start(chars@) == file_name_start(chars@.take(start as int)),
            decreases start,
        {
            assert(chars@.take(start as int).drop_last() =~= chars@.take(start - 1));
            start -= 1;
        }
        assert(file_name_start(chars@) == start);
        let mut path = String::from_str(self.path.as_str().substring_char(0, start));
        path.append("resolution");
        let mut content = String::new();
        append_decimal(&mut content, bits as u64);
        assert(content@ =~= decimal_text(bits as nat));
        FileWrite { path, content }
    }

    /// What a read of the status file amounts to: the raw temperature in
    /// thousandths of a degree where the file was read and holds one, else
    /// the class of the failure.
    pub fn read_temperature(&self, outcome: Result<String, ErrorKind>) -> (r: Result<
        i32,
        ReadError,
    >)
        ensures
            r == match outcome {
                Ok(text) => match reading_of(text@) {
                    Some(millis) => Ok::<i32, ReadError>(millis),
                    None => Err(ReadError::InvalidData),
                },
                Err(kind) => Err(class_of(kind)),
            },
    {
        match outcome {
            Ok(text) => parse_temperature_data(text.as_str()),
            Err(kind) => Err(classify(kind)),
        }
    }

    /// The calibrated value of a raw reading, both in thousandths of a
    /// degree.
    pub fn calibrate(&self, raw: i32) -> (calibrated: i64)
        ensures
            calibrated == raw + self@.offset,
    {
        raw as i64 + self.offset as i64
    }
}

/// The names of the entries of a directory, as plain values.
pub open spec fn names_of(entries: Seq<String>) -> Seq<Seq<char>> {
    entries.map_values(|entry: String| entry@)
}

/// The probes as plain values.
pub open spec fn views_of(probes: Seq<Probe>) -> Seq<ProbeView> {
    probes.map_values(|probe: Probe| probe@)
}

/// The probes found among the entries of the device directory: one for
/// each entry of the sensor family, in the order of the entries.
pub open spec fn discovered(
    ids: Seq<Seq<char>>,
    labels: Map<Seq<char>, String>,
    offsets: Map<Seq<char>, i32>,
) -> Seq<ProbeView>
    decreases ids.len(),
{
    if ids.len() == 0 {
        Seq::empty()
    } else {
        let earlier = discovered(ids.drop_last(), labels, offsets);
        if is_sensor_id(ids.last()) {
            earlier.push(resolved(ids.last(), labels, offsets))
        } else {
            earlier
        }
    }
}

/// Tells whether a directory entry names a sensor of the temperature
/// family.
pub fn is_sensor(id: &str) -> (r: bool)
    ensures
        r == is_sensor_id(id@),
{
    let chars = chars_of(id);
    let prefix = chars_of("28-");
    proof {
        reveal_strlit("28-");
        assert(prefix@ =~= family_prefix());
    }
    if chars.len() < prefix.len() {
        false
    } else {
        matches_at(&chars, &prefix, 0)
    }
}

/// Makes the probes out of the entries of the device directory. `None`
/// stands for a directory that does not exist: no hardware, so no probes.
pub fn discover_probes(
    entries: Option<&Vec<String>>,
    labels: &Table<String>,
    offsets: &Table<i32>,
) -> (probes: Vec<Probe>)
    ensures
        views_of(probes@) == match entries {
            Some(list) => discovered(names_of(list@), labels@, offsets@),
            None => Seq::<ProbeView>::empty(),
        },
{
    let mut probes: Vec<Probe> = Vec::new();
    match entries {
        None => {
            assert(views_of(probes@) =~= Seq::<ProbeView>::empty());
        },
        Some(list) => {
            let ghost ids = names_of(list@);
            assert(views_of(probes@) =~= discovered(ids.take(0), labels@, offsets@));
            let mut i: usize = 0;
            while i < list.len()
                invariant
                    i <= list.len(),
                    ids == names_of(list@),
                    views_of(probes@) == discovered(ids.take(i as int), labels@, offsets@),
                decreases list.len() - i,
            {
                let id = list[i].as_str();
                proof {
                    assert(ids.take(i + 1).drop_last() =~= ids.take(i as int));
                    assert(ids.take(i + 1).last() == id@);
                }
                if is_sensor(id) {
                    let probe = Probe::resolve(id, labels, offsets);
                    proof {
                        assert(views_of(probes@.push(probe)) =~= views_of(probes@).push(probe@));
                    }
                    probes.push(probe);
                }
                i += 1;
            }
            assert(ids.take(i as int) =~= ids);
        },
    }
    probes
}

} // verus!
