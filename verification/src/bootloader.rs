//! Data model for the bootloader configuration.

use vstd::prelude::*;

verus! {

/// Represents a Bootloader
#[derive(Clone, Copy, Debug, PartialEq, Eq, Structural)]
pub struct BootloaderSettings {
    pub stop_on_boot_menu: bool,
}

impl Default for BootloaderSettings {
    /// The empty configuration, used when no data has been loaded yet.
    fn default() -> (r: Self)
        ensures
            r.stop_on_boot_menu == false,
    {
        BootloaderSettings { stop_on_boot_menu: false }
    }
}

} // verus!
