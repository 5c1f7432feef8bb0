//! Describing the device behind an rng.
//!
//! Which device that is has to be found out: the name of the rng suggests
//! candidates, which are probed in turn until one is there. For each kind of
//! device there is a list of attributes to read; those that are present make
//! up the description.

use vstd::prelude::*;
use vstd::string::StringExecFns;
use vstd::string::StrSliceExecFns;

use crate::sysfs;
use crate::sysfs::file_name;
use crate::text;
use crate::text::{chars_of, find_char, same, starts_with};

verus! {

/// A bus whose drivers may stand behind an rng.
#[derive(Debug, Clone, Copy, PartialEq, Eq, Structural)]
pub enum Bus {
    Virtio,
    Pci,
    Platform,
}

impl Bus {
    /// The name of the bus in sysfs.
    pub open spec fn text(self) -> Seq<char> {
        match self {
            Bus::Virtio => "virtio"@,
            Bus::Pci => "pci"@,
            Bus::Platform => "platform"@,
        }
    }

    /// The name of the bus in sysfs.
    pub fn name(self) -> (r: &'static str)
        ensures
            r@ == self.text(),
    {
        match self {
            Bus::Virtio => "virtio",
            Bus::Pci => "pci",
            Bus::Platform => "platform",
        }
    }
}

/// A candidate for the device behind an rng.
#[derive(Debug)]
pub enum Probe {
    /// The kernel's rng that does nothing: there is no device.
    Noop,
    /// The TPM at `path`, if that exists.
    Tpm { path: String },
    /// The USB interface at `path`, if that exists.
    Usb { path: String, suffix: String },
    /// A device of a driver of that bus, if there is one.
    OnBus { bus: Bus },
    /// Nothing was found: there is no candidate left.
    Unmapped,
}

/// A candidate for the device behind an rng.
pub enum Candidate {
    Noop,
    Tpm { path: Seq<char> },
    Usb { path: Seq<char>, suffix: Seq<char> },
    OnBus { bus: Bus },
    Unmapped,
}

impl View for Probe {
    type V = Candidate;

    open spec fn view(&self) -> Candidate {
        match *self {
            Probe::Noop => Candidate::Noop,
            Probe::Tpm { path } => Candidate::Tpm { path: path@ },
            Probe::Usb { path, suffix } => Candidate::Usb { path: path@, suffix: suffix@ },
            Probe::OnBus { bus } => Candidate::OnBus { bus },
            Probe::Unmapped => Candidate::Unmapped,
        }
    }
}

/// The path of an entry of the directory of USB devices. An entry that is an
/// absolute path itself stands for that path.
pub open spec fn usb_path(entry: Seq<char>) -> Seq<char> {
    if entry.len() > 0 && entry[0] == '/' {
        entry
    } else {
        "/sys/bus/usb/devices/"@ + entry
    }
}

fn usb_path_of(entry: &str) -> (r: String)
    ensures
        r@ == usb_path(entry@),
{
    if !entry.is_empty() && entry.get_char(0) == '/' {
        return entry.to_owned();
    }
    let mut path = String::new();
    path.append("/sys/bus/usb/devices/");
    path.append(entry);
    assert(path@ =~= "/sys/bus/usb/devices/"@ + entry@);
    path
}

/// The USB interface that the part of the name after its first dash
/// suggests; without a dash, the first bus.
pub open spec fn usb_or_bus(name: Seq<char>) -> Candidate {
    let dash = text::position(name, '-');
    if dash < name.len() {
        let suffix = name.skip(dash as int + 1);
        Candidate::Usb { path: usb_path(suffix), suffix }
    } else {
        Candidate::OnBus { bus: Bus::Virtio }
    }
}

/// The first candidate for an rng of that name.
pub open spec fn first_candidate(name: Seq<char>) -> Candidate {
    if name == "none"@ {
        Candidate::Noop
    } else if "tpm-rng-"@.is_prefix_of(name) {
        Candidate::Tpm { path: "/sys/class/tpm/tpm"@ + name.skip("tpm-rng-"@.len() as int) }
    } else {
        usb_or_bus(name)
    }
}

/// The candidate after one that is not there.
pub open spec fn next_candidate(name: Seq<char>, missed: Candidate) -> Candidate {
    match missed {
        Candidate::Noop => Candidate::Noop,
        Candidate::Tpm { path } => usb_or_bus(name),
        Candidate::Usb { path, suffix } => Candidate::OnBus { bus: Bus::Virtio },
        Candidate::OnBus { bus: Bus::Virtio } => Candidate::OnBus { bus: Bus::Pci },
        Candidate::OnBus { bus: Bus::Pci } => Candidate::OnBus { bus: Bus::Platform },
        Candidate::OnBus { bus: Bus::Platform } => Candidate::Unmapped,
        Candidate::Unmapped => Candidate::Unmapped,
    }
}

fn probe_usb_or_bus(name: &str) -> (r: Probe)
    ensures
        r@ == usb_or_bus(name@),
{
    let chars = chars_of(name);
    let dash: usize = find_char(chars.as_slice(), '-');
    if dash < chars.len() {
        let suffix = name.substring_char(dash + 1, chars.len());
        assert(suffix@ =~= name@.skip(dash + 1));
        let path = usb_path_of(suffix);
        Probe::Usb { path, suffix: suffix.to_owned() }
    } else {
        Probe::OnBus { bus: Bus::Virtio }
    }
}

/// The first candidate for the device behind an rng.
pub fn first_probe(name: &str) -> (r: Probe)
    ensures
        r@ == first_candidate(name@),
{
    if same(name, "none") {
        return Probe::Noop;
    }
    if starts_with(name, "tpm-rng-") {
        let len: usize = name.unicode_len();
        proof {
            reveal_strlit("tpm-rng-");
        }
        let index = name.substring_char(8, len);
        assert(index@ =~= name@.skip(8));
        let mut path = String::new();
        path.append("/sys/class/tpm/tpm");
        path.append(index);
        assert(path@ =~= "/sys/class/tpm/tpm"@ + index@);
        return Probe::Tpm { path };
    }
    probe_usb_or_bus(name)
}

/// The candidate to try after one that is not there. `Noop` and `Unmapped`
/// are final: they need no device and are followed by themselves.
pub fn next_probe(name: &str, missed: &Probe) -> (r: Probe)
    ensures
        r@ == next_candidate(name@, missed@),
{
    match missed {
        Probe::Noop => Probe::Noop,
        Probe::Tpm { path: _ } => probe_usb_or_bus(name),
        Probe::Usb { path: _, suffix: _ } => Probe::OnBus { bus: Bus::Virtio },
        Probe::OnBus { bus } => match *bus {
            Bus::Virtio => Probe::OnBus { bus: Bus::Pci },
            Bus::Pci => Probe::OnBus { bus: Bus::Platform },
            Bus::Platform => Probe::Unmapped,
        },
        Probe::Unmapped => Probe::Unmapped,
    }
}

/// What is printed in place of a description.
pub open spec fn remark_text(candidate: Candidate) -> Option<Seq<char>> {
    match candidate {
        Candidate::Noop => Some("  (kernel no-op rng)\n"@),
        Candidate::Unmapped => Some("  (no device mapping known)\n"@),
        _ => None,
    }
}

/// What is printed in place of a description, for the candidates that are
/// final.
pub fn remark(probe: &Probe) -> (r: Option<&'static str>)
    ensures
        text::view_of(r) == remark_text(probe@),
{
    match probe {
        Probe::Noop => Some("  (kernel no-op rng)\n"),
        Probe::Unmapped => Some("  (no device mapping known)\n"),
        _ => None,
    }
}

/// Where the value of an attribute comes from.
#[derive(Debug, Clone, Copy, PartialEq, Eq, Structural)]
pub enum Source {
    /// The content of the file.
    Content,
    /// The name of what the link points to.
    LinkName,
}

/// An attribute of a device: a file below the device's directory, and the
/// label that its value is shown with.
#[derive(Debug)]
pub struct Attribute {
    pub file: &'static str,
    pub source: Source,
    pub label: &'static str,
}

/// An attribute of a device.
pub struct Field {
    pub file: Seq<char>,
    pub source: Source,
    pub label: Seq<char>,
}

impl View for Attribute {
    type V = Field;

    open spec fn view(&self) -> Field {
        Field { file: self.file@, source: self.source, label: self.label@ }
    }
}

/// The attributes of a list.
pub open spec fn fields(attributes: Seq<Attribute>) -> Seq<Field> {
    Seq::new(attributes.len(), |i: int| attributes[i]@)
}

/// The values that were read.
pub open spec fn values_of(values: Seq<Option<String>>) -> Seq<Option<Seq<char>>> {
    Seq::new(values.len(), |i: int| text::content_of(values[i]))
}

/// Value number `i`; absent where there are fewer values.
pub open spec fn value_at(values: Seq<Option<Seq<char>>>, i: int) -> Option<Seq<char>> {
    if 0 <= i < values.len() {
        values[i]
    } else {
        None
    }
}

/// The line that shows a value; nothing where there is none.
pub open spec fn line(label: Seq<char>, value: Option<Seq<char>>) -> Seq<char> {
    match value {
        Some(v) => label + v + "\n"@,
        None => Seq::empty(),
    }
}

/// The lines that show the values of attributes.
pub open spec fn lines(list: Seq<Field>, values: Seq<Option<Seq<char>>>) -> Seq<char>
    decreases list.len(),
{
    if list.len() == 0 {
        Seq::empty()
    } else {
        lines(list.drop_last(), values) + line(list.last().label, value_at(values, list.len() - 1))
    }
}

fn append_line(out: &mut String, label: &str, value: Option<&str>)
    ensures
        final(out)@ == old(out)@ + line(label@, text::view_of(value)),
{
    if let Some(v) = value {
        out.append(label);
        out.append(v);
        out.append("\n");
        assert(out@ =~= old(out)@ + (label@ + v@ + "\n"@));
    } else {
        assert(out@ =~= old(out)@ + Seq::empty());
    }
}

fn get(values: &[Option<String>], i: usize) -> (r: Option<&str>)
    ensures
        text::view_of(r) == value_at(values_of(values@), i as int),
{
    if i < values.len() {
        match &values[i] {
            Some(v) => Some(v.as_str()),
            None => None,
        }
    } else {
        None
    }
}

fn append_lines(out: &mut String, list: &[Attribute], values: &[Option<String>])
    ensures
        final(out)@ == old(out)@ + lines(fields(list@), values_of(values@)),
{
    let ghost all = fields(list@);
    let ghost given = values_of(values@);
    assert(out@ =~= old(out)@ + Seq::empty());
    for i in 0..list.len()
        invariant
            all == fields(list@),
            given == values_of(values@),
            out@ == old(out)@ + lines(all.take(i as int), given),
    {
        let ghost before = out@;
        append_line(out, list[i].label, get(values, i));
        proof {
            assert(all.take(i + 1).drop_last() =~= all.take(i as int));
            assert(all.take(i + 1).last() == list@[i as int]@);
            let added = line(list@[i as int].label@, value_at(given, i as int));
            assert(before + added =~= old(out)@ + (lines(all.take(i as int), given) + added));
        }
    }
    assert(all.take(list@.len() as int) =~= all);
}

/// The attributes of a TPM.
pub open spec fn tpm_fields() -> Seq<Field> {
    seq![
        Field {
            file: "tpm_version_major"@,
            source: Source::Content,
            label: "  tpm-version: "@,
        },
        Field { file: "device/driver"@, source: Source::LinkName, label: "  driver:      "@ },
        Field { file: "device/modalias"@, source: Source::Content, label: "  modalias:    "@ },
    ]
}

/// The attributes of a TPM, in the order in which they are shown.
pub fn tpm_attributes() -> (r: Vec<Attribute>)
    ensures
        fields(r@) == tpm_fields(),
{
    let list: Vec<Attribute> = vec![
        Attribute {
            file: "tpm_version_major",
            source: Source::Content,
            label: "  tpm-version: ",
        },
        Attribute { file: "device/driver", source: Source::LinkName, label: "  driver:      " },
        Attribute { file: "device/modalias", source: Source::Content, label: "  modalias:    " },
    ];
    assert(fields(list@) =~= tpm_fields());
    list
}

/// The attributes that name the driver of a device and its modalias.
pub open spec fn driver_fields() -> Seq<Field> {
    seq![
        Field { file: "driver"@, source: Source::LinkName, label: "  driver:      "@ },
        Field { file: "modalias"@, source: Source::Content, label: "  modalias:    "@ },
    ]
}

/// The attributes that USB interfaces and bus devices have in common.
pub fn driver_attributes() -> (r: Vec<Attribute>)
    ensures
        fields(r@) == driver_fields(),
{
    let list: Vec<Attribute> = vec![
        Attribute { file: "driver", source: Source::LinkName, label: "  driver:      " },
        Attribute { file: "modalias", source: Source::Content, label: "  modalias:    " },
    ];
    assert(fields(list@) =~= driver_fields());
    list
}

/// The attributes that only the devices of one bus have.
pub open spec fn bus_fields(bus: Bus) -> Seq<Field> {
    match bus {
        Bus::Pci => seq![
            Field { file: "vendor"@, source: Source::Content, label: "  pci-vendor:  "@ },
            Field { file: "device"@, source: Source::Content, label: "  pci-device:  "@ },
            Field { file: "class"@, source: Source::Content, label: "  pci-class:   "@ },
        ],
        Bus::Virtio => seq![
            Field { file: "vendor"@, source: Source::Content, label: "  virtio-vendor: "@ },
            Field { file: "device"@, source: Source::Content, label: "  virtio-device: "@ },
        ],
        Bus::Platform => seq![
            Field {
                file: "of_node/compatible"@,
                source: Source::Content,
                label: "  of-compatible: "@,
            },
            Field {
                file: "firmware_node"@,
                source: Source::LinkName,
                label: "  firmware:    "@,
            },
        ],
    }
}

/// The attributes that only the devices of one bus have, in the order in
/// which they are shown.
pub fn bus_attributes(bus: Bus) -> (r: Vec<Attribute>)
    ensures
        fields(r@) == bus_fields(bus),
{
    let list: Vec<Attribute> = match bus {
        Bus::Pci => vec![
            Attribute { file: "vendor", source: Source::Content, label: "  pci-vendor:  " },
            Attribute { file: "device", source: Source::Content, label: "  pci-device:  " },
            Attribute { file: "class", source: Source::Content, label: "  pci-class:   " },
        ],
        Bus::Virtio => vec![
            Attribute { file: "vendor", source: Source::Content, label: "  virtio-vendor: " },
            Attribute { file: "device", source: Source::Content, label: "  virtio-device: " },
        ],
        Bus::Platform => vec![
            Attribute {
                file: "of_node/compatible",
                source: Source::Content,
                label: "  of-compatible: ",
            },
            Attribute {
                file: "firmware_node",
                source: Source::LinkName,
                label: "  firmware:    ",
            },
        ],
    };
    assert(fields(list@) =~= bus_fields(bus));
    list
}

/// The line that names the directory of a device.
pub open spec fn device_line(path: Seq<char>) -> Seq<char> {
    "  device:      "@ + path + "\n"@
}

fn device_line_of(path: &str) -> (r: String)
    ensures
        r@ == device_line(path@),
{
    let mut out = String::new();
    out.append("  device:      ");
    out.append(path);
    out.append("\n");
    assert(out@ =~= device_line(path@));
    out
}

/// The description of the TPM at `path`, given the values of its attributes.
pub fn describe_tpm(path: &str, values: &[Option<String>]) -> (r: String)
    ensures
        r@ == device_line(path@) + lines(tpm_fields(), values_of(values@)),
{
    let mut out = device_line_of(path);
    let list = tpm_attributes();
    append_lines(&mut out, list.as_slice(), values);
    out
}

/// The line with the address of a PCI device, which is the name of its
/// directory.
pub open spec fn address_line(path: Seq<char>, bus: Bus) -> Seq<char> {
    if bus == Bus::Pci {
        line("  pci-bdf:     "@, sysfs::base_name(path))
    } else {
        Seq::empty()
    }
}

/// The description of a device on a bus, given the values of the attributes
/// that all such devices have and of those of its bus.
pub fn describe_bus_device(
    path: &str,
    bus: Bus,
    common: &[Option<String>],
    values: &[Option<String>],
) -> (r: String)
    ensures
        r@ == device_line(path@) + lines(driver_fields(), values_of(common@)) + address_line(
            path@,
            bus,
        ) + lines(bus_fields(bus), values_of(values@)),
{
    let mut out = device_line_of(path);
    let list = driver_attributes();
    append_lines(&mut out, list.as_slice(), common);
    let ghost before = out@;
    if bus == Bus::Pci {
        append_line(&mut out, "  pci-bdf:     ", file_name(path));
    } else {
        assert(out@ =~= before + Seq::empty());
    }
    let own = bus_attributes(bus);
    append_lines(&mut out, own.as_slice(), values);
    out
}

/// The files of a USB device that are read for its description.
pub open spec fn usb_files() -> Seq<Seq<char>> {
    seq![
        "idVendor"@,
        "manufacturer"@,
        "idProduct"@,
        "product"@,
        "serial"@,
        "bcdDevice"@,
    ]
}

/// The files of a USB device that are read for its description, in the order
/// in which [`describe_usb`] takes their values.
pub fn usb_device_files() -> (r: Vec<&'static str>)
    ensures
        text::views(r@) == usb_files(),
{
    let list: Vec<&'static str> = vec![
        "idVendor",
        "manufacturer",
        "idProduct",
        "product",
        "serial",
        "bcdDevice",
    ];
    assert(text::views(list@) =~= usb_files());
    list
}

/// The directory of the USB device that an interface belongs to: the part of
/// the interface's name before its first colon names it.
pub fn usb_device_path(suffix: &str) -> (r: String)
    ensures
        r@ == usb_path(suffix@.take(text::position(suffix@, ':') as int)),
{
    let chars = chars_of(suffix);
    let colon: usize = find_char(chars.as_slice(), ':');
    let id = suffix.substring_char(0, colon);
    assert(id@ =~= suffix@.take(colon as int));
    usb_path_of(id)
}

/// The line that shows an identifier, with its meaning in brackets if that is
/// known.
pub open spec fn identifier_line(
    label: Seq<char>,
    id: Option<Seq<char>>,
    meaning: Option<Seq<char>>,
) -> Seq<char> {
    match id {
        Some(i) => match meaning {
            Some(m) => label + i + " ("@ + m + ")\n"@,
            None => label + i + "\n"@,
        },
        None => Seq::empty(),
    }
}

fn append_identifier(out: &mut String, label: &str, id: Option<&str>, meaning: Option<&str>)
    ensures
        final(out)@ == old(out)@ + identifier_line(
            label@,
            text::view_of(id),
            text::view_of(meaning),
        ),
{
    if let Some(i) = id {
        out.append(label);
        out.append(i);
        if let Some(m) = meaning {
            out.append(" (");
            out.append(m);
            out.append(")\n");
            assert(out@ =~= old(out)@ + (label@ + i@ + " ("@ + m@ + ")\n"@));
        } else {
            out.append("\n");
            assert(out@ =~= old(out)@ + (label@ + i@ + "\n"@));
        }
    } else {
        assert(out@ =~= old(out)@ + Seq::empty());
    }
}

/// The lines about the USB device that an interface belongs to.
pub open spec fn usb_device_lines(values: Seq<Option<Seq<char>>>) -> Seq<char> {
    identifier_line("  usb-vendor:  "@, value_at(values, 0), value_at(values, 1))
        + identifier_line("  usb-product: "@, value_at(values, 2), value_at(values, 3)) + line(
        "  serial:      "@,
        value_at(values, 4),
    ) + line("  bcd-device:  "@, value_at(values, 5))
}

/// The description of the USB interface at `path`, given the values of its
/// attributes and, if the directory of its device exists, those of the
/// device.
pub fn describe_usb(
    path: &str,
    values: &[Option<String>],
    device: &Option<Vec<Option<String>>>,
) -> (r: String)
    ensures
        r@ == device_line(path@) + lines(driver_fields(), values_of(values@)) + (match *device {
            Some(given) => usb_device_lines(values_of(given@)),
            None => Seq::empty(),
        }),
{
    let mut out = device_line_of(path);
    let list = driver_attributes();
    append_lines(&mut out, list.as_slice(), values);
    let ghost before = out@;
    if let Some(given) = device {
        let given = given.as_slice();
        append_identifier(&mut out, "  usb-vendor:  ", get(given, 0), get(given, 1));
        append_identifier(&mut out, "  usb-product: ", get(given, 2), get(given, 3));
        append_line(&mut out, "  serial:      ", get(given, 4));
        append_line(&mut out, "  bcd-device:  ", get(given, 5));
        assert(out@ =~= before + usb_device_lines(values_of(given@)));
    } else {
        assert(out@ =~= before + Seq::empty());
    }
    out
}

/// The candidates for the device behind an rng, in the order in which they
/// are probed.
pub open spec fn candidates(name: Seq<char>) -> Seq<Candidate> {
    if name == "none"@ {
        seq![Candidate::Noop]
    } else {
        let tpm = if "tpm-rng-"@.is_prefix_of(name) {
            seq![first_candidate(name)]
        } else {
            Seq::empty()
        };
        let usb = if text::position(name, '-') < name.len() {
            seq![usb_or_bus(name)]
        } else {
            Seq::empty()
        };
        tpm + usb + seq![
            Candidate::OnBus { bus: Bus::Virtio },
            Candidate::OnBus { bus: Bus::Pci },
            Candidate::OnBus { bus: Bus::Platform },
            Candidate::Unmapped,
        ]
    }
}

/// Whether a candidate needs no device to be there.
pub open spec fn is_final(candidate: Candidate) -> bool {
    candidate is Noop || candidate is Unmapped
}

/// Probing goes through the candidates one by one and ends: the last
/// candidate, and no other, is final.
pub proof fn law_probes_in_order(name: Seq<char>)
    ensures
        candidates(name).len() > 0,
        candidates(name)[0] == first_candidate(name),
        forall|i: int|
            0 <= i < candidates(name).len() - 1 ==> next_candidate(
                name,
                #[trigger] candidates(name)[i],
            ) == candidates(name)[i + 1],
        forall|i: int|
            0 <= i < candidates(name).len() ==> (is_final(#[trigger] candidates(name)[i]) <==> i
                == candidates(name).len() - 1),
{
    let list = candidates(name);
    if name != "none"@ && "tpm-rng-"@.is_prefix_of(name) {
        reveal_strlit("tpm-rng-");
        assert(name[0] == 't' && name[1] == 'p' && name[2] == 'm' && name[3] == '-') by {
            assert(name.subrange(0, 8) == "tpm-rng-"@);
            assert("tpm-rng-"@[0] == name[0]);
            assert("tpm-rng-"@[1] == name[1]);
            assert("tpm-rng-"@[2] == name[2]);
            assert("tpm-rng-"@[3] == name[3]);
        }
        lemma_position(name, '-', 3);
        assert(list.len() == 6);
    }
}

proof fn lemma_position(s: Seq<char>, c: char, k: int)
    requires
        0 <= k < s.len(),
        s[k] == c,
    ensures
        text::position(s, c) <= k,
    decreases s.len(),
{
    if s[0] != c {
        lemma_position(s.drop_first(), c, k - 1);
    }
}

/// What probing from a candidate on ends with, where `present` says which
/// devices are there. At most six candidates are tried.
pub open spec fn settled(
    name: Seq<char>,
    candidate: Candidate,
    present: spec_fn(Candidate) -> bool,
    tries: nat,
) -> Candidate
    decreases tries,
{
    if tries == 0 || is_final(candidate) || present(candidate) {
        candidate
    } else {
        settled(name, next_candidate(name, candidate), present, (tries - 1) as nat)
    }
}

/// The device that is described is the first of the candidates that is there;
/// if none is, the final remark is printed.
#[verifier::spinoff_prover]
pub proof fn law_first_present_is_described(
    name: Seq<char>,
    present: spec_fn(Candidate) -> bool,
    k: int,
)
    requires
        0 <= k < candidates(name).len(),
        present(candidates(name)[k]) || k == candidates(name).len() - 1,
        forall|j: int| 0 <= j < k ==> !present(#[trigger] candidates(name)[j]),
    ensures
        settled(name, first_candidate(name), present, 6) == candidates(name)[k],
{
    law_probes_in_order(name);
    lemma_settled(name, candidates(name), present, 0, k, 6);
}

/// Probing a list of candidates of which the last alone is final ends with
/// the first that is there.
proof fn lemma_settled(
    name: Seq<char>,
    list: Seq<Candidate>,
    present: spec_fn(Candidate) -> bool,
    i: int,
    k: int,
    tries: nat,
)
    requires
        0 <= i <= k < list.len(),
        k - i <= tries,
        present(list[k]) || k == list.len() - 1,
        forall|j: int| 0 <= j < k ==> !present(#[trigger] list[j]),
        forall|j: int|
            0 <= j < list.len() - 1 ==> next_candidate(name, #[trigger] list[j]) == list[j + 1],
        forall|j: int|
            0 <= j < list.len() ==> (is_final(#[trigger] list[j]) <==> j == list.len() - 1),
    ensures
        settled(name, list[i], present, tries) == list[k],
    decreases k - i,
{
    if i < k {
        assert(!is_final(list[i]));
        lemma_settled(name, list, present, i + 1, k, (tries - 1) as nat);
    }
}

/// The buses go by their names in sysfs.
pub proof fn law_bus_names()
    ensures
        Bus::Virtio.text() == "virtio"@,
        Bus::Pci.text() == "pci"@,
        Bus::Platform.text() == "platform"@,
{
}

/// A candidate is what the probe for it says.
pub proof fn law_probe_is_its_candidate(probe: Probe)
    ensures
        match probe {
            Probe::Noop => probe@ is Noop,
            Probe::Tpm { path } => probe@ is Tpm && probe@->Tpm_path == path@,
            Probe::Usb { path, suffix } => probe@ is Usb && probe@->Usb_path == path@
                && probe@->suffix == suffix@,
            Probe::OnBus { bus } => probe@ is OnBus && probe@->bus == bus,
            Probe::Unmapped => probe@ is Unmapped,
        },
{
}

/// An entry of the directory of USB devices lies below it, unless it is an
/// absolute path.
pub proof fn law_usb_path(entry: Seq<char>)
    ensures
        usb_path(Seq::empty()) == "/sys/bus/usb/devices/"@,
        entry.len() > 0 && entry[0] == '/' ==> usb_path(entry) == entry,
        entry.len() > 0 && entry[0] != '/' ==> usb_path(entry) == "/sys/bus/usb/devices/"@ + entry,
{
    assert(usb_path(Seq::empty()) =~= "/sys/bus/usb/devices/"@);
}

proof fn lemma_position_after(front: Seq<char>, c: char, back: Seq<char>)
    requires
        forall|i: int| 0 <= i < front.len() ==> #[trigger] front[i] != c,
    ensures
        text::position(front.push(c) + back, c) == front.len(),
{
    let s = front.push(c) + back;
    text::law_position_is_first(s, c);
    lemma_position(s, c, front.len() as int);
    let p = text::position(s, c) as int;
    if p < front.len() {
        assert(front[p] == s[p]);
    }
}

/// The rng of a TPM is looked for at that TPM first, and then as any other
/// rng whose name has a dash in it.
pub proof fn law_tpm_is_probed(index: Seq<char>)
    ensures
        first_candidate("tpm-rng-"@ + index) == (Candidate::Tpm {
            path: "/sys/class/tpm/tpm"@ + index,
        }),
        forall|path: Seq<char>|
            #[trigger] next_candidate("tpm-rng-"@ + index, Candidate::Tpm { path }) == (
            Candidate::Usb { path: "/sys/bus/usb/devices/rng-"@ + index, suffix: "rng-"@ + index }),
{
    reveal_strlit("tpm-rng-");
    reveal_strlit("none");
    reveal_strlit("rng-");
    reveal_strlit("/sys/bus/usb/devices/");
    reveal_strlit("/sys/bus/usb/devices/rng-");
    let name = "tpm-rng-"@ + index;
    let suffix = "rng-"@ + index;
    assert(name[0] == 't');
    assert("none"@[0] == 'n');
    assert(name.subrange(0, 8) =~= "tpm-rng-"@);
    assert(name.skip(8) =~= index);
    let front = seq!['t', 'p', 'm'];
    lemma_position_after(front, '-', suffix);
    assert(front.push('-') + suffix =~= name);
    assert(name.skip(4) =~= suffix);
    assert(usb_path(suffix) =~= "/sys/bus/usb/devices/rng-"@ + index);
}

/// An rng with a dash in its name is looked for among the USB devices, under
/// all that follows its first dash.
pub proof fn law_usb_is_probed(front: Seq<char>, suffix: Seq<char>)
    requires
        forall|i: int| 0 <= i < front.len() ==> #[trigger] front[i] != '-',
    ensures
        ({
            let name = front.push('-') + suffix;
            let usb = Candidate::Usb { path: usb_path(suffix), suffix };
            &&& !"tpm-rng-"@.is_prefix_of(name) ==> first_candidate(name) == usb
            &&& forall|path: Seq<char>| #[trigger]
                next_candidate(name, Candidate::Tpm { path }) == usb
        }),
{
    let name = front.push('-') + suffix;
    lemma_position_after(front, '-', suffix);
    assert(name.skip(front.len() as int + 1) =~= suffix);
    assert(name[front.len() as int] == '-');
    reveal_strlit("none");
    if name == "none"@ {
        assert("none"@[front.len() as int] == '-');
    }
}

/// An rng without a dash in its name is looked for on the buses alone, and
/// the rng `none` nowhere.
pub proof fn law_plain_names_are_probed_on_buses(name: Seq<char>)
    requires
        forall|i: int| 0 <= i < name.len() ==> #[trigger] name[i] != '-',
    ensures
        name != "none"@ ==> first_candidate(name) == (Candidate::OnBus { bus: Bus::Virtio }),
        name == "none"@ ==> first_candidate(name) is Noop,
        forall|path: Seq<char>| #[trigger]
            next_candidate(name, Candidate::Tpm { path }) == (Candidate::OnBus {
                bus: Bus::Virtio,
            }),
{
    reveal_strlit("tpm-rng-");
    text::law_position_is_first(name, '-');
    if text::position(name, '-') < name.len() {
        assert(name[text::position(name, '-') as int] == '-');
    }
    if "tpm-rng-"@.is_prefix_of(name) {
        assert(name.subrange(0, 8)[3] == name[3]);
        assert("tpm-rng-"@[3] == '-');
    }
}

/// After the USB devices come the buses, in the order virtio, PCI, platform;
/// after them, nothing is left. The final candidates stay.
pub proof fn law_buses_are_probed_in_turn(name: Seq<char>, path: Seq<char>, suffix: Seq<char>)
    ensures
        next_candidate(name, Candidate::Usb { path, suffix }) == (Candidate::OnBus {
            bus: Bus::Virtio,
        }),
        next_candidate(name, Candidate::OnBus { bus: Bus::Virtio }) == (Candidate::OnBus {
            bus: Bus::Pci,
        }),
        next_candidate(name, Candidate::OnBus { bus: Bus::Pci }) == (Candidate::OnBus {
            bus: Bus::Platform,
        }),
        next_candidate(name, Candidate::OnBus { bus: Bus::Platform }) is Unmapped,
        next_candidate(name, Candidate::Unmapped) is Unmapped,
        next_candidate(name, Candidate::Noop) is Noop,
{
}

/// Only the final candidates come with a remark.
pub proof fn law_remarks(candidate: Candidate)
    ensures
        candidate is Noop ==> remark_text(candidate) == Some("  (kernel no-op rng)\n"@),
        candidate is Unmapped ==> remark_text(candidate) == Some(
            "  (no device mapping known)\n"@,
        ),
        remark_text(candidate) is Some <==> candidate is Noop || candidate is Unmapped,
{
}

/// The attributes and the values of lists are those of their members, one by
/// one; a value beyond the end of a list is absent.
pub proof fn law_fields_and_values(attributes: Seq<Attribute>, values: Seq<Option<String>>, i: int)
    ensures
        fields(attributes).len() == attributes.len(),
        0 <= i < attributes.len() ==> fields(attributes)[i].file == attributes[i].file@
            && fields(attributes)[i].source == attributes[i].source && fields(attributes)[i].label
            == attributes[i].label@,
        values_of(values).len() == values.len(),
        0 <= i < values.len() ==> value_at(values_of(values), i) == text::content_of(values[i]),
        i >= values.len() ==> value_at(values_of(values), i) is None,
{
}

proof fn lemma_lines_of_more_values(
    list: Seq<Field>,
    values: Seq<Option<Seq<char>>>,
    more: Seq<Option<Seq<char>>>,
)
    requires
        list.len() <= values.len(),
    ensures
        lines(list, values + more) == lines(list, values),
    decreases list.len(),
{
    if list.len() > 0 {
        lemma_lines_of_more_values(list.drop_last(), values, more);
    }
}

/// The lines of a description are made value by value: an attribute with a
/// value gives a line with its label and the value, one without gives
/// nothing, and two runs of attributes give the lines of the first and the
/// lines of the second. A value that is missing at the end counts as absent.
pub proof fn law_lines_show_what_is_there(
    a: Seq<Field>,
    values_a: Seq<Option<Seq<char>>>,
    b: Seq<Field>,
    values_b: Seq<Option<Seq<char>>>,
    field: Field,
    value: Seq<char>,
)
    requires
        values_a.len() == a.len(),
    ensures
        lines(Seq::empty(), values_a) == Seq::<char>::empty(),
        lines(seq![field], seq![Some(value)]) == field.label + (value + "\n"@),
        lines(seq![field], seq![None]) == Seq::<char>::empty(),
        lines(seq![field], Seq::empty()) == Seq::<char>::empty(),
        lines(a + b, values_a + values_b) == lines(a, values_a) + lines(b, values_b),
        lines(b, values_b.push(None)) == lines(b, values_b),
    decreases b.len(),
{
    let none = Seq::<Field>::empty();
    assert(seq![field].drop_last() =~= none);
    assert(lines(none, seq![Some(value)]) =~= Seq::<char>::empty());
    assert(lines(none, seq![None]) =~= Seq::<char>::empty());
    assert(lines(none, Seq::empty()) =~= Seq::<char>::empty());
    assert(lines(seq![field], seq![Some(value)]) =~= field.label + (value + "\n"@));
    assert(lines(seq![field], seq![None]) =~= Seq::<char>::empty());
    assert(lines(seq![field], Seq::empty()) =~= Seq::<char>::empty());
    let values = values_a + values_b;
    if b.len() == 0 {
        assert(a + b =~= a);
        lemma_lines_of_more_values(a, values_a, values_b);
        assert(lines(a, values_a) + lines(b, values_b) =~= lines(a, values_a));
        assert(lines(b, values_b.push(None)) =~= lines(b, values_b));
    } else {
        law_lines_show_what_is_there(a, values_a, b.drop_last(), values_b, field, value);
        assert((a + b).drop_last() =~= a + b.drop_last());
        assert((a + b).last() == b.last());
        assert(value_at(values, a.len() + b.len() - 1) == value_at(values_b, b.len() - 1));
        assert(lines(a + b, values) =~= lines(a, values_a) + lines(b, values_b));
        assert(value_at(values_b.push(None), b.len() - 1) == value_at(values_b, b.len() - 1));
    }
}

/// The first line of a description names the directory of the device; that of
/// a PCI device also has a line with its address, which is the name of that
/// directory.
pub proof fn law_device_lines(path: Seq<char>, bus: Bus)
    ensures
        device_line(path) == "  device:      "@ + (path + "\n"@),
        bus != Bus::Pci ==> address_line(path, bus) == Seq::<char>::empty(),
        sysfs::base_name(path) is None ==> address_line(path, bus) == Seq::<char>::empty(),
        sysfs::base_name(path) matches Some(name) ==> address_line(path, Bus::Pci)
            == "  pci-bdf:     "@ + (name + "\n"@),
{
    assert(device_line(path) =~= "  device:      "@ + (path + "\n"@));
    if let Some(name) = sysfs::base_name(path) {
        assert(address_line(path, Bus::Pci) =~= "  pci-bdf:     "@ + (name + "\n"@));
    }
}

/// An identifier is shown with its meaning in brackets if that is known, and
/// a meaning without its identifier is not shown.
pub proof fn law_identifier_line(
    label: Seq<char>,
    id: Seq<char>,
    meaning: Seq<char>,
    any: Option<Seq<char>>,
)
    ensures
        identifier_line(label, Some(id), Some(meaning)) == label + (id + (" ("@ + (meaning
            + ")\n"@))),
        identifier_line(label, Some(id), None) == label + (id + "\n"@),
        identifier_line(label, None, any) == Seq::<char>::empty(),
{
    assert(identifier_line(label, Some(id), Some(meaning)) =~= label + (id + (" ("@ + (meaning
        + ")\n"@))));
    assert(identifier_line(label, Some(id), None) =~= label + (id + "\n"@));
}

/// The lines about a USB device are one for the vendor, one for the product,
/// one for the serial number and one for the release, each where its value is
/// there.
pub proof fn law_usb_device_lines(values: Seq<Option<Seq<char>>>)
    ensures
        usb_device_lines(values) == identifier_line(
            "  usb-vendor:  "@,
            value_at(values, 0),
            value_at(values, 1),
        ) + (identifier_line("  usb-product: "@, value_at(values, 2), value_at(values, 3)) + (
        identifier_line("  serial:      "@, value_at(values, 4), None) + identifier_line(
            "  bcd-device:  "@,
            value_at(values, 5),
            None,
        ))),
{
    assert(usb_device_lines(values) =~= identifier_line(
        "  usb-vendor:  "@,
        value_at(values, 0),
        value_at(values, 1),
    ) + (identifier_line("  usb-product: "@, value_at(values, 2), value_at(values, 3)) + (
    identifier_line("  serial:      "@, value_at(values, 4), None) + identifier_line(
        "  bcd-device:  "@,
        value_at(values, 5),
        None,
    ))));
}

} // verus!
