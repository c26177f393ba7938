//! The device-identity resolver: maps a transient device reference (a device
//! node name such as `sdg1`, or a topology path fragment such as `3:0:0:0`)
//! to a durable hardware identifier, over a snapshot of the enumerated block
//! devices. The snapshot must be taken only after the device-event backend
//! has settled, which is the caller's duty; the resolver itself is a pure
//! query over the snapshot it is handed.

use vstd::prelude::*;
use vstd::string::{StrSliceExecFns, StringExecFns};
use crate::textscan::{contains_seq, ends_with_seq, ends_with, find_str_from};

verus! {

/// One enumerated block device, as plain values: its canonical device-node
/// path (empty when the backend exposes none), its topology path, and its
/// durable-identifier properties where present.
pub struct DeviceInfo {
    /// Canonical device-node path, such as `/dev/sdr`; empty when absent.
    pub node: String,
    /// Topology path of the device's position in the hardware tree.
    pub syspath: String,
    /// World-wide identifier property, where the device has one.
    pub wwid: Option<String>,
    /// Short serial-number property, where the device has one.
    pub serial: Option<String>,
}

/// A durable identifier for a device: a world-wide identifier, a serial
/// number, or nothing. Never cached across calls: a device may gain its
/// identifiers only after the backend finishes processing a hotplug event.
pub enum DurableIdentity {
    Wwid(String),
    Serial(String),
    Absent,
}

/// The identity a device yields: its world-wide identifier when present,
/// else its serial number, else nothing.
pub open spec fn resolves_to(d: DeviceInfo, r: DurableIdentity) -> bool {
    match d.wwid {
        Some(w) => r matches DurableIdentity::Wwid(x) && x@ == w@,
        None => match d.serial {
            Some(sn) => r matches DurableIdentity::Serial(x) && x@ == sn@,
            None => r is Absent,
        },
    }
}

/// The label an identity carries in an annotation record.
pub open spec fn spec_identity_label(r: DurableIdentity) -> Seq<char> {
    match r {
        DurableIdentity::Wwid(x) => "WWID: "@ + x@,
        DurableIdentity::Serial(x) => "SN: "@ + x@,
        DurableIdentity::Absent => Seq::<char>::empty(),
    }
}

impl DurableIdentity {
    /// Whether any identifier was found.
    pub fn is_present(&self) -> (r: bool)
        ensures
            r == !(*self is Absent),
    {
        !matches!(self, DurableIdentity::Absent)
    }

    /// The label this identity carries in an annotation record: the
    /// identifier prefixed with its sort, or empty when absent.
    pub fn label(&self) -> (r: String)
        ensures
            r@ == spec_identity_label(*self),
    {
        match self {
            DurableIdentity::Wwid(x) => String::from_str("WWID: ").concat(x.as_str()),
            DurableIdentity::Serial(x) => String::from_str("SN: ").concat(x.as_str()),
            DurableIdentity::Absent => String::new(),
        }
    }
}

/// Fetches the durable name of one device: the world-wide identifier is
/// preferred, the serial number is the fallback.
pub fn fetch_durable_name(d: &DeviceInfo) -> (r: DurableIdentity)
    ensures
        resolves_to(*d, r),
{
    match &d.wwid {
        Some(w) => DurableIdentity::Wwid(w.clone()),
        None => match &d.serial {
            Some(sn) => DurableIdentity::Serial(sn.clone()),
            None => DurableIdentity::Absent,
        },
    }
}

/// Which reference sort a lookup starts from.
#[derive(Clone, Copy, PartialEq, Eq, Structural, Debug)]
pub enum IdLookup {
    /// A device-node name, matched against the end of the canonical path.
    DevNode,
    /// A topology fragment, matched anywhere inside the topology path.
    PathId,
}

/// Whether a device answers to the reference under the given sort. Matching
/// is case-exact. A device-node reference matches when the canonical path
/// ends with it (equality is the full-length case); a topology reference
/// matches anywhere within the topology path.
pub open spec fn ref_matches(mode: IdLookup, d: DeviceInfo, search: Seq<char>) -> bool {
    match mode {
        IdLookup::DevNode => ends_with_seq(d.node@, search),
        IdLookup::PathId => contains_seq(d.syspath@, search),
    }
}

/// Decides whether a device answers to the reference.
pub fn device_matches(mode: IdLookup, d: &DeviceInfo, search: &str) -> (r: bool)
    ensures
        r == ref_matches(mode, *d, search@),
{
    match mode {
        IdLookup::DevNode => ends_with(d.node.as_str(), search),
        IdLookup::PathId => find_str_from(d.syspath.as_str(), 0, search).is_some(),
    }
}

/// Looks the reference up in the enumeration snapshot. The first matching
/// device in enumeration order answers — duplicates behind it are never
/// consulted — and yields its durable name. No matching device, or a match
/// without identifiers, yields nothing: an expected outcome, not an error.
pub fn id_lookup(search_name: &str, mode: IdLookup, devices: &Vec<DeviceInfo>) -> (r:
    DurableIdentity)
    ensures
        (forall|j: int| 0 <= j < devices@.len() ==> !ref_matches(mode, devices@[j], search_name@))
            ==> r is Absent,
        (exists|i: int| 0 <= i < devices@.len() && ref_matches(mode, devices@[i], search_name@))
            ==> exists|i: int|
            {
                &&& 0 <= i < devices@.len()
                &&& ref_matches(mode, devices@[i], search_name@)
                &&& forall|j: int| 0 <= j < i ==> !ref_matches(mode, devices@[j], search_name@)
                &&& resolves_to(devices@[i], r)
            },
{
    let n = devices.len();
    let mut i: usize = 0;
    while i < n
        invariant
            i <= n,
            n == devices@.len(),
            forall|j: int| 0 <= j < i ==> !ref_matches(mode, devices@[j], search_name@),
        decreases n - i,
    {
        let d = &devices[i];
        if device_matches(mode, d, search_name) {
            return fetch_durable_name(d);
        }
        i += 1;
    }
    DurableIdentity::Absent
}

/// Looks up the durable identity for a device-node name, such as `sdr`
/// against a canonical `/dev/sdr`.
pub fn id_for_devnode(dev_name: &str, devices: &Vec<DeviceInfo>) -> (r: DurableIdentity)
    ensures
        (forall|j: int| 0 <= j < devices@.len() ==> !ref_matches(
            IdLookup::DevNode,
            devices@[j],
            dev_name@,
        )) ==> r is Absent,
        (exists|i: int| 0 <= i < devices@.len() && ref_matches(
            IdLookup::DevNode,
            devices@[i],
            dev_name@,
        )) ==> exists|i: int|
            {
                &&& 0 <= i < devices@.len()
                &&& ref_matches(IdLookup::DevNode, devices@[i], dev_name@)
                &&& forall|j: int| 0 <= j < i ==> !ref_matches(
                    IdLookup::DevNode,
                    devices@[j],
                    dev_name@,
                )
                &&& resolves_to(devices@[i], r)
            },
{
    id_lookup(dev_name, IdLookup::DevNode, devices)
}

/// Looks up the durable identity for a topology path fragment, such as a
/// host:bus:target:lun tuple or a bus address.
pub fn id_for_path_id(device_id: &str, devices: &Vec<DeviceInfo>) -> (r: DurableIdentity)
    ensures
        (forall|j: int| 0 <= j < devices@.len() ==> !ref_matches(
            IdLookup::PathId,
            devices@[j],
            device_id@,
        )) ==> r is Absent,
        (exists|i: int| 0 <= i < devices@.len() && ref_matches(
            IdLookup::PathId,
            devices@[i],
            device_id@,
        )) ==> exists|i: int|
            {
                &&& 0 <= i < devices@.len()
                &&& ref_matches(IdLookup::PathId, devices@[i], device_id@)
                &&& forall|j: int| 0 <= j < i ==> !ref_matches(
                    IdLookup::PathId,
                    devices@[j],
                    device_id@,
                )
                &&& resolves_to(devices@[i], r)
            },
{
    id_lookup(device_id, IdLookup::PathId, devices)
}

// ---------------------------------------------------------------------------
// The identifier-directory resolver and its base-name normalization.
// ---------------------------------------------------------------------------

/// Where the final path segment of `s` begins: just after the last `/`, or
/// the start when there is none.
pub open spec fn base_start(s: Seq<char>) -> int
    decreases s.len(),
{
    if s.len() == 0 {
        0
    } else if s[s.len() - 1] == '/' {
        s.len() as int
    } else {
        base_start(s.drop_last())
    }
}

/// The final path segment of `s`: everything after the last `/`, or all of
/// `s` when it holds no separator.
pub open spec fn spec_base_name(s: Seq<char>) -> Seq<char> {
    s.subrange(base_start(s), s.len() as int)
}

/// The final segment begins after a separator (or at the start), and holds
/// no separator itself.
pub proof fn lemma_base_start(s: Seq<char>)
    ensures
        0 <= base_start(s) <= s.len(),
        base_start(s) > 0 ==> s[base_start(s) - 1] == '/',
        forall|j: int| base_start(s) <= j < s.len() ==> s[j] != '/',
    decreases s.len(),
{
    if s.len() > 0 && s[s.len() - 1] != '/' {
        lemma_base_start(s.drop_last());
        assert forall|j: int| base_start(s) <= j < s.len() implies s[j] != '/' by {
            if j < s.len() - 1 {
                assert(s.drop_last()[j] == s[j]);
            }
        }
    }
}

/// Any position that follows a separator (or is the start) and has no
/// separator after it is where the final segment begins.
pub proof fn lemma_base_start_unique(s: Seq<char>, i: int)
    requires
        0 <= i <= s.len(),
        i > 0 ==> s[i - 1] == '/',
        forall|j: int| i <= j < s.len() ==> s[j] != '/',
    ensures
        base_start(s) == i,
    decreases s.len(),
{
    if s.len() == 0 {
    } else if s[s.len() - 1] == '/' {
        assert(i == s.len());
    } else {
        assert(i < s.len());
        lemma_base_start_unique(s.drop_last(), i);
    }
}

/// Reduces a device reference to its final path segment: the part after the
/// last separator, or the whole reference when it holds none.
pub fn base_name(s: &str) -> (r: &str)
    ensures
        r@ == spec_base_name(s@),
{
    let n = s.unicode_len();
    let mut i: usize = n;
    while i > 0
        invariant
            i <= n,
            n == s@.len(),
            forall|j: int| i <= j < s@.len() ==> s@[j] != '/',
        decreases i,
    {
        if s.get_char(i - 1) == '/' {
            proof {
                lemma_base_start_unique(s@, i as int);
            }
            return s.substring_char(i, n);
        }
        i -= 1;
    }
    proof {
        lemma_base_start_unique(s@, 0);
        assert(s@.subrange(0, s@.len() as int) =~= s@);
    }
    s
}

/// One entry of an on-disk identifier directory: the entry's name is itself
/// a durable identifier, and its symbolic target names the device node it
/// stands for.
pub struct IdDirEntry {
    /// The durable name the directory gives the device.
    pub name: String,
    /// The resolved target of the entry's symbolic reference.
    pub target: String,
}

/// Whether a directory entry stands for the device with the given base
/// name, by the same suffix policy as the device-node lookup.
pub open spec fn dir_entry_matches(e: IdDirEntry, base: Seq<char>) -> bool {
    ends_with_seq(e.target@, base)
}

/// The identifier-directory resolver: reduces the reference to its final
/// path segment, then answers with the name of the first entry whose target
/// ends with that segment.
pub fn id_for_dir_entries(device_ref: &str, entries: &Vec<IdDirEntry>) -> (r: Option<String>)
    ensures
        r is None ==> forall|j: int| 0 <= j < entries@.len() ==> !dir_entry_matches(
            entries@[j],
            spec_base_name(device_ref@),
        ),
        r matches Some(name) ==> exists|i: int|
            {
                &&& 0 <= i < entries@.len()
                &&& dir_entry_matches(entries@[i], spec_base_name(device_ref@))
                &&& forall|j: int| 0 <= j < i ==> !dir_entry_matches(
                    entries@[j],
                    spec_base_name(device_ref@),
                )
                &&& name@ == entries@[i].name@
            },
{
    let base = base_name(device_ref);
    let n = entries.len();
    let mut i: usize = 0;
    while i < n
        invariant
            i <= n,
            n == entries@.len(),
            base@ == spec_base_name(device_ref@),
            forall|j: int| 0 <= j < i ==> !dir_entry_matches(
                entries@[j],
                spec_base_name(device_ref@),
            ),
        decreases n - i,
    {
        let e = &entries[i];
        if ends_with(e.target.as_str(), base) {
            return Some(e.name.clone());
        }
        i += 1;
    }
    None
}

} // verus!
