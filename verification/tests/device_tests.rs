use dechatter::cmd::parse_filter;
use dechatter::device_wrapper::{
    device_before, get_filtered_devices, select_device, sort_devices, DeviceInfo,
    NoMatchingDevice,
};
use dechatter::display::DisplayOpts;

fn device(name: &str, path: &str) -> DeviceInfo {
    DeviceInfo {
        bus_type: 3,
        vendor: 0x1234,
        product: 0x5678,
        version: 0x111,
        name: Some(name.to_string()),
        path: path.to_string(),
        physical_path: Some(format!("usb-0000:04:00.3-3/{}", path)),
    }
}

#[test]
fn path_breaks_ordering_tie() {
    // Two devices differing only in path: the lexicographically smaller
    // path sorts first ("event10" precedes "event9", character by character).
    let a = device("kbd", "/dev/input/event10");
    let b = device("kbd", "/dev/input/event9");
    assert!(device_before(&a, &b));
    assert!(!device_before(&b, &a));
}

#[test]
fn ordering_key_precedence() {
    let base = device("kbd", "/dev/input/event1");
    let mut higher_bus = device("aaa", "/dev/input/event0");
    higher_bus.bus_type = 4;
    assert!(device_before(&base, &higher_bus), "bus type outweighs name and path");
    let mut higher_vendor = device("aaa", "/dev/input/event0");
    higher_vendor.vendor = 0xffff;
    assert!(device_before(&base, &higher_vendor), "vendor outweighs name and path");
    let later_name = device("zzz", "/dev/input/event0");
    assert!(device_before(&base, &later_name), "name outweighs path");
}

#[test]
fn unnamed_devices_sort_under_placeholder() {
    let mut anon = device("x", "/dev/input/event0");
    anon.name = None;
    let named = device("Unnamed device", "/dev/input/event1");
    // The placeholder name compares equal, so the path decides.
    assert!(device_before(&anon, &named));
}

#[test]
fn sort_devices_orders_by_key() {
    let devices = vec![
        device("kbd", "/dev/input/event9"),
        device("abc", "/dev/input/event3"),
        device("kbd", "/dev/input/event10"),
    ];
    let sorted = sort_devices(devices);
    let paths: Vec<&str> = sorted.iter().map(|d| d.path.as_str()).collect();
    assert_eq!(paths, vec!["/dev/input/event3", "/dev/input/event10", "/dev/input/event9"]);
}

#[test]
fn filters_apply_per_category_and_all_must_match() {
    let devices = vec![
        device("Asus Keyboard", "/dev/input/event1"),
        device("Asus Mouse", "/dev/input/event2"),
        device("Logitech Keyboard", "/dev/input/event3"),
    ];
    let name = vec![parse_filter("s:Asus"), parse_filter("e:board")];
    let path = vec![];
    let physical = vec![];
    let kept = get_filtered_devices(devices, &name, &path, &physical);
    assert_eq!(kept.len(), 1);
    assert_eq!(kept[0].path, "/dev/input/event1");
}

#[test]
fn filters_on_path_and_physical_path() {
    let devices = vec![
        device("kbd", "/dev/input/event1"),
        device("kbd", "/dev/input/event2"),
    ];
    let name = vec![];
    let path = vec![parse_filter("/dev/input/event2")];
    let physical = vec![parse_filter("c:usb-")];
    let kept = get_filtered_devices(devices, &name, &path, &physical);
    assert_eq!(kept.len(), 1);
    assert_eq!(kept[0].path, "/dev/input/event2");
}

#[test]
fn absent_attributes_match_as_empty() {
    let mut anon = device("x", "/dev/input/event1");
    anon.name = None;
    anon.physical_path = None;
    let name = vec![parse_filter("s:x")];
    let kept = get_filtered_devices(vec![anon], &name, &vec![], &vec![]);
    assert!(kept.is_empty(), "a missing name filters as the empty string");
}

#[test]
fn no_filters_keep_everything_in_order() {
    let devices = vec![
        device("b", "/dev/input/event2"),
        device("a", "/dev/input/event1"),
    ];
    let kept = get_filtered_devices(devices, &vec![], &vec![], &vec![]);
    assert_eq!(kept.len(), 2);
    assert_eq!(kept[0].path, "/dev/input/event2", "filtering keeps the incoming order");
}

#[test]
fn select_device_by_index() {
    let devices = vec![
        device("a", "/dev/input/event1"),
        device("b", "/dev/input/event2"),
    ];
    let picked = select_device(devices, 1).unwrap();
    assert_eq!(picked.path, "/dev/input/event2");
}

#[test]
fn select_device_out_of_bounds_is_an_error() {
    let devices = vec![device("a", "/dev/input/event1")];
    assert_eq!(select_device(devices, 1).unwrap_err(), NoMatchingDevice);
    assert_eq!(select_device(vec![], 0).unwrap_err(), NoMatchingDevice);
}

#[test]
fn display_opts_from_flags() {
    let opts = DisplayOpts::from_flags(true, true, false, false, false, false);
    assert!(opts.path && opts.physical_path);
    assert!(!opts.name && !opts.id && !opts.keys);
    let all = DisplayOpts::from_flags(false, false, false, false, false, true);
    assert!(all.path && all.physical_path && all.name && all.id && all.keys);
}
