//! Which device attributes the listing command prints.

use vstd::prelude::*;

verus! {

/// One toggle per printable attribute of a listed device.
#[derive(Debug, Clone, Copy, PartialEq, Eq, Structural)]
pub struct DisplayOpts {
    pub path: bool,
    pub physical_path: bool,
    pub name: bool,
    pub id: bool,
    pub keys: bool,
}

impl DisplayOpts {
    /// Combines the listing command's toggles: `all` switches every
    /// attribute on, each other flag only its own.
    pub fn from_flags(path: bool, physical_path: bool, name: bool, id: bool, keys: bool, all: bool) -> (opts: DisplayOpts)
        ensures
            opts == (DisplayOpts {
                path: path || all,
                physical_path: physical_path || all,
                name: name || all,
                id: id || all,
                keys: keys || all,
            }),
    {
        DisplayOpts {
            path: path || all,
            physical_path: physical_path || all,
            name: name || all,
            id: id || all,
            keys: keys || all,
        }
    }
}

} // verus!
