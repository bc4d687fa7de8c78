//! Candidate input devices as plain metadata: a total ordering that makes
//! listing and index selection reproducible, filtering by the configured
//! name/path/physical-path filters, and selection by index.

use vstd::prelude::*;

use crate::cmd::{filter_matches, StringFilter};
use crate::strings::{
    lemma_lex_lt_asymmetric, lemma_lex_lt_connected, lemma_lex_lt_irreflexive,
    lemma_lex_lt_transitive, lex_lt, str_eq, str_lt,
};

verus! {

/// What the engine reads of one enumerated input device. The name and the
/// physical path are absent on some devices; the filesystem path is always
/// known (it is how the device was found).
#[derive(Debug)]
pub struct DeviceInfo {
    pub bus_type: u16,
    pub vendor: u16,
    pub product: u16,
    pub version: u16,
    pub name: Option<String>,
    pub path: String,
    pub physical_path: Option<String>,
}

/// The name a device is listed and ordered under.
pub open spec fn display_name(d: DeviceInfo) -> Seq<char> {
    match d.name {
        Some(n) => n@,
        None => "Unnamed device"@,
    }
}

/// The text a `StringFilter` for an optional attribute is matched against:
/// an absent attribute reads as the empty string.
pub open spec fn optional_text(o: Option<String>) -> Seq<char> {
    match o {
        Some(s) => s@,
        None => Seq::<char>::empty(),
    }
}

/// Two devices agree on every field of the ordering key
/// `(bus type, vendor, product, version, name, path)`.
pub open spec fn device_key_eq(a: DeviceInfo, b: DeviceInfo) -> bool {
    &&& a.bus_type == b.bus_type
    &&& a.vendor == b.vendor
    &&& a.product == b.product
    &&& a.version == b.version
    &&& display_name(a) == display_name(b)
    &&& a.path@ == b.path@
}

/// `a` sorts strictly before `b`: the ordering key
/// `(bus type, vendor, product, version, name, path)` compared
/// lexicographically, strings in lexicographic character order.
pub open spec fn device_lt(a: DeviceInfo, b: DeviceInfo) -> bool {
    if a.bus_type != b.bus_type {
        a.bus_type < b.bus_type
    } else if a.vendor != b.vendor {
        a.vendor < b.vendor
    } else if a.product != b.product {
        a.product < b.product
    } else if a.version != b.version {
        a.version < b.version
    } else if display_name(a) != display_name(b) {
        lex_lt(display_name(a), display_name(b))
    } else {
        lex_lt(a.path@, b.path@)
    }
}

impl DeviceInfo {
    /// The device's name, or a placeholder when it reports none.
    pub fn name(&self) -> (n: &str)
        ensures
            n@ == display_name(*self),
    {
        match &self.name {
            Some(n) => n.as_str(),
            None => "Unnamed device",
        }
    }
}

/// Whether `a` sorts strictly before `b` in the device order.
pub fn device_before(a: &DeviceInfo, b: &DeviceInfo) -> (r: bool)
    ensures
        r == device_lt(*a, *b),
{
    if a.bus_type != b.bus_type {
        return a.bus_type < b.bus_type;
    }
    if a.vendor != b.vendor {
        return a.vendor < b.vendor;
    }
    if a.product != b.product {
        return a.product < b.product;
    }
    if a.version != b.version {
        return a.version < b.version;
    }
    let an = a.name();
    let bn = b.name();
    if !str_eq(an, bn) {
        return str_lt(an, bn);
    }
    str_lt(a.path.as_str(), b.path.as_str())
}

/// Law: the device order is a strict total order. Any two devices are
/// related in exactly one way: one sorts first, or their ordering keys are
/// equal.
pub proof fn lemma_device_order_trichotomy(a: DeviceInfo, b: DeviceInfo)
    ensures
        device_lt(a, b) || device_lt(b, a) || device_key_eq(a, b),
        device_lt(a, b) ==> !device_lt(b, a) && !device_key_eq(a, b),
        device_lt(b, a) ==> !device_lt(a, b) && !device_key_eq(a, b),
        device_key_eq(a, b) ==> !device_lt(a, b) && !device_lt(b, a),
{
    if !lex_lt(display_name(a), display_name(b)) && !lex_lt(display_name(b), display_name(a)) {
        lemma_lex_lt_connected(display_name(a), display_name(b));
    }
    if !lex_lt(a.path@, b.path@) && !lex_lt(b.path@, a.path@) {
        lemma_lex_lt_connected(a.path@, b.path@);
    }
    if lex_lt(display_name(a), display_name(b)) {
        lemma_lex_lt_asymmetric(display_name(a), display_name(b));
    }
    if lex_lt(display_name(b), display_name(a)) {
        lemma_lex_lt_asymmetric(display_name(b), display_name(a));
    }
    if lex_lt(a.path@, b.path@) {
        lemma_lex_lt_asymmetric(a.path@, b.path@);
    }
    if lex_lt(b.path@, a.path@) {
        lemma_lex_lt_asymmetric(b.path@, a.path@);
    }
    lemma_lex_lt_irreflexive(display_name(a));
    lemma_lex_lt_irreflexive(a.path@);
}

/// Law: the device order is irreflexive — no device sorts before itself.
pub proof fn lemma_device_order_irreflexive(a: DeviceInfo)
    ensures
        !device_lt(a, a),
{
    lemma_lex_lt_irreflexive(a.path@);
}

/// Law: the device order is transitive.
pub proof fn lemma_device_order_transitive(a: DeviceInfo, b: DeviceInfo, c: DeviceInfo)
    requires
        device_lt(a, b),
        device_lt(b, c),
    ensures
        device_lt(a, c),
{
    if lex_lt(display_name(a), display_name(b)) && lex_lt(display_name(b), display_name(c)) {
        lemma_lex_lt_transitive(display_name(a), display_name(b), display_name(c));
    }
    if lex_lt(a.path@, b.path@) && lex_lt(b.path@, c.path@) {
        lemma_lex_lt_transitive(a.path@, b.path@, c.path@);
    }
    lemma_lex_lt_irreflexive(display_name(a));
    lemma_lex_lt_irreflexive(display_name(b));
    lemma_lex_lt_irreflexive(display_name(c));
    lemma_lex_lt_irreflexive(a.path@);
    lemma_lex_lt_irreflexive(b.path@);
    lemma_lex_lt_irreflexive(c.path@);
}

/// Law: of two devices that agree on bus type, vendor, product, version and
/// name, the one with the lexicographically smaller path sorts first.
pub proof fn lemma_path_breaks_tie(a: DeviceInfo, b: DeviceInfo)
    requires
        a.bus_type == b.bus_type,
        a.vendor == b.vendor,
        a.product == b.product,
        a.version == b.version,
        display_name(a) == display_name(b),
        lex_lt(a.path@, b.path@),
    ensures
        device_lt(a, b),
{
}

/// No device later in the sequence sorts strictly before an earlier one.
pub open spec fn sorted_by_device_order(s: Seq<DeviceInfo>) -> bool {
    forall|i: int, j: int| 0 <= i < j < s.len() ==> !device_lt(#[trigger] s[j], #[trigger] s[i])
}

/// Sorts the enumerated devices into the device order, so that listing and
/// index selection are stable across runs. Selection sort: repeatedly moves
/// a minimal remaining device to the end of the output.
pub fn sort_devices(devices: Vec<DeviceInfo>) -> (sorted: Vec<DeviceInfo>)
    ensures
        sorted_by_device_order(sorted@),
        sorted@.to_multiset() == devices@.to_multiset(),
{
    broadcast use vstd::seq_lib::group_to_multiset_ensures;

    let ghost orig = devices@;
    let mut rest = devices;
    let mut sorted: Vec<DeviceInfo> = Vec::new();
    while rest.len() > 0
        invariant
            sorted_by_device_order(sorted@),
            forall|i: int, j: int|
                0 <= i < sorted@.len() && 0 <= j < rest@.len() ==> !device_lt(
                    #[trigger] rest@[j],
                    #[trigger] sorted@[i],
                ),
            sorted@.to_multiset().add(rest@.to_multiset()) =~= orig.to_multiset(),
        decreases rest@.len(),
    {
        let mut min: usize = 0;
        let mut k: usize = 1;
        proof {
            lemma_device_order_irreflexive(rest@[0]);
        }
        while k < rest.len()
            invariant
                0 <= min < rest@.len(),
                min < k <= rest@.len(),
                forall|j: int| 0 <= j < k ==> !device_lt(#[trigger] rest@[j], rest@[min as int]),
            decreases rest@.len() - k,
        {
            if device_before(&rest[k], &rest[min]) {
                proof {
                    assert forall|j: int| 0 <= j < k implies !device_lt(rest@[j], rest@[k as int]) by {
                        if device_lt(rest@[j], rest@[k as int]) {
                            lemma_device_order_transitive(rest@[j], rest@[k as int], rest@[min as int]);
                        }
                    }
                    lemma_device_order_irreflexive(rest@[k as int]);
                }
                min = k;
            }
            k = k + 1;
        }
        let ghost rest0 = rest@;
        let ghost sorted0 = sorted@;
        let d = rest.remove(min);
        sorted.push(d);
        proof {
            assert(rest0[min as int] == d);
            assert(rest0.contains(d));
            rest0.remove_ensures(min as int);
            rest0.to_multiset_ensures();
            sorted0.to_multiset_ensures();
            assert(rest@.to_multiset() =~= rest0.to_multiset().remove(d));
            assert(sorted@ =~= sorted0.push(d));
            assert(sorted@.to_multiset() =~= sorted0.to_multiset().insert(d));
            assert(rest0.to_multiset().count(d) > 0);
            assert(sorted@.to_multiset().add(rest@.to_multiset()) =~= orig.to_multiset());
            assert forall|j: int| 0 <= j < rest@.len() implies !device_lt(rest@[j], d) by {
                if j < min {
                    assert(rest@[j] == rest0[j]);
                } else {
                    assert(rest@[j] == rest0[j + 1]);
                }
            }
            assert forall|i: int, j: int|
                0 <= i < sorted@.len() && 0 <= j < rest@.len() implies !device_lt(
                rest@[j],
                sorted@[i],
            ) by {
                if i < sorted0.len() {
                    if j < min {
                        assert(rest@[j] == rest0[j]);
                    } else {
                        assert(rest@[j] == rest0[j + 1]);
                    }
                    assert(sorted@[i] == sorted0[i]);
                }
            }
            assert forall|i: int, j: int| 0 <= i < j < sorted@.len() implies !device_lt(
                sorted@[j],
                sorted@[i],
            ) by {
                if j < sorted0.len() {
                    assert(sorted@[i] == sorted0[i]);
                    assert(sorted@[j] == sorted0[j]);
                } else {
                    assert(sorted@[j] == d);
                    assert(sorted@[i] == sorted0[i]);
                }
            }
        }
    }
    sorted
}

/// No device stood at the requested index after filtering.
#[derive(Debug, Clone, Copy, PartialEq, Eq, Structural)]
pub struct NoMatchingDevice;

/// Picks the candidate at `index` among the filtered, ordered devices; an
/// index at or beyond their number is an error, reported before any device
/// is touched.
pub fn select_device(devices: Vec<DeviceInfo>, index: usize) -> (r: Result<
    DeviceInfo,
    NoMatchingDevice,
>)
    ensures
        index < devices@.len() ==> (r matches Ok(d) && d == devices@[index as int]),
        index >= devices@.len() ==> r == Err::<DeviceInfo, NoMatchingDevice>(NoMatchingDevice),
{
    let mut devices = devices;
    if index >= devices.len() {
        return Err(NoMatchingDevice);
    }
    Ok(devices.remove(index))
}

/// Every filter in the list accepts the string.
pub open spec fn all_filters_match(filters: Seq<StringFilter>, s: Seq<char>) -> bool {
    forall|i: int| 0 <= i < filters.len() ==> filter_matches(#[trigger] filters[i], s)
}

/// A device is kept only when every filter of every category accepts the
/// matching attribute; an absent attribute is matched as the empty string.
pub open spec fn device_passes(
    d: DeviceInfo,
    name: Seq<StringFilter>,
    path: Seq<StringFilter>,
    physical_path: Seq<StringFilter>,
) -> bool {
    &&& all_filters_match(path, d.path@)
    &&& all_filters_match(name, optional_text(d.name))
    &&& all_filters_match(physical_path, optional_text(d.physical_path))
}

/// Whether every filter accepts `s`.
fn filters_accept(filters: &Vec<StringFilter>, s: &str) -> (r: bool)
    ensures
        r == all_filters_match(filters@, s@),
{
    let mut i: usize = 0;
    while i < filters.len()
        invariant
            0 <= i <= filters@.len(),
            forall|j: int| 0 <= j < i ==> filter_matches(#[trigger] filters@[j], s@),
        decreases filters@.len() - i,
    {
        if !filters[i].matches(s) {
            return false;
        }
        i = i + 1;
    }
    true
}

/// Keeps, in their incoming order, the devices that pass every configured
/// filter of every category.
pub fn get_filtered_devices(
    devices: Vec<DeviceInfo>,
    name: &Vec<StringFilter>,
    path: &Vec<StringFilter>,
    physical_path: &Vec<StringFilter>,
) -> (kept: Vec<DeviceInfo>)
    ensures
        kept@ == devices@.filter(
            |d: DeviceInfo| device_passes(d, name@, path@, physical_path@),
        ),
{
    let ghost pred = |d: DeviceInfo| device_passes(d, name@, path@, physical_path@);
    let ghost orig = devices@;
    let mut rest = devices;
    let mut kept: Vec<DeviceInfo> = Vec::new();
    let ghost mut i: int = 0;
    proof {
        assert(rest@ =~= orig.skip(0));
        assert(orig.take(0).filter(pred) =~= Seq::<DeviceInfo>::empty()) by {
            reveal(Seq::filter);
        }
    }
    while rest.len() > 0
        invariant
            0 <= i <= orig.len(),
            rest@ == orig.skip(i),
            kept@ == orig.take(i).filter(pred),
            pred == (|d: DeviceInfo| device_passes(d, name@, path@, physical_path@)),
        decreases rest@.len(),
    {
        let d = rest.remove(0);
        proof {
            assert(orig.skip(i)[0] == orig[i]);
            assert(orig.skip(i).remove(0) =~= orig.skip(i + 1));
        }
        let pass_path = filters_accept(path, d.path.as_str());
        let pass_name = match &d.name {
            Some(n) => filters_accept(name, n.as_str()),
            None => filters_accept(name, ""),
        };
        let pass_physical = match &d.physical_path {
            Some(p) => filters_accept(physical_path, p.as_str()),
            None => filters_accept(physical_path, ""),
        };
        proof {
            reveal_strlit("");
            assert(""@ =~= Seq::<char>::empty());
        }
        if pass_path && pass_name && pass_physical {
            kept.push(d);
        }
        proof {
            reveal(Seq::filter);
            assert(orig.take(i + 1).drop_last() =~= orig.take(i));
            assert(orig.take(i + 1).last() == orig[i]);
            assert(kept@ =~= orig.take(i + 1).filter(pred));
        }
        proof {
            i = i + 1;
        }
    }
    proof {
        assert(orig.take(i) =~= orig);
    }
    kept
}

} // verus!
