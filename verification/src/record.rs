//! The record type for one observed file system and its eligibility rule.

use vstd::prelude::*;

verus! {

/// Mathematical model of a [`FileSystem`]: every textual field as a sequence
/// of characters, with `None` standing for a field the inventory tool left
/// empty.
#[verifier::ext_equal]
pub struct FsView {
    pub block_device: Seq<char>,
    pub fstype: Option<Seq<char>>,
    pub mount_point: Option<Seq<char>>,
    pub transport: Option<Seq<char>>,
    pub label: Option<Seq<char>>,
}

/// Represents a file system from the underlying system.
///
/// It only includes the elements that are relevant for deciding whether the
/// device can be used as a source or target of a transfer.
#[derive(Debug, PartialEq, Eq)]
pub struct FileSystem {
    pub block_device: String,
    pub fstype: Option<String>,
    pub mount_point: Option<String>,
    pub transport: Option<String>,
    pub label: Option<String>,
}

/// The model of an optional textual field.
pub open spec fn opt_view(o: Option<String>) -> Option<Seq<char>> {
    match o {
        Option::None => None,
        Option::Some(s) => Some(s@),
    }
}

impl View for FileSystem {
    type V = FsView;

    open spec fn view(&self) -> FsView {
        FsView {
            block_device: self.block_device@,
            fstype: opt_view(self.fstype),
            mount_point: opt_view(self.mount_point),
            transport: opt_view(self.transport),
            label: opt_view(self.label),
        }
    }
}

/// The model of a sequence of records.
pub open spec fn seq_view(v: Seq<FileSystem>) -> Seq<FsView> {
    v.map_values(|fs: FileSystem| fs@)
}

/// Whether a record denotes a file system that can serve as a mount target:
/// its type must be known, and must be neither an encrypted container nor a
/// swap area.
pub open spec fn mountable(r: FsView) -> bool {
    match r.fstype {
        Option::None => false,
        Option::Some(t) => t.len() > 0 && t != "crypto_LUKS"@ && t != "swap"@,
    }
}

/// Equality of two string slices by value.
pub fn str_eq(a: &str, b: &str) -> (r: bool)
    ensures
        r == (a@ == b@),
{
    let owned_a: String = a.to_owned();
    let owned_b: String = b.to_owned();
    owned_a == owned_b
}

/// A copy of an optional string with the same value.
pub(crate) fn clone_opt_string(o: &Option<String>) -> (r: Option<String>)
    ensures
        r == *o,
{
    match o {
        Option::None => None,
        Option::Some(s) => Some(s.clone()),
    }
}

impl Clone for FileSystem {
    fn clone(&self) -> (r: Self)
        ensures
            r == *self,
    {
        FileSystem {
            block_device: self.block_device.clone(),
            fstype: clone_opt_string(&self.fstype),
            mount_point: clone_opt_string(&self.mount_point),
            transport: clone_opt_string(&self.transport),
            label: clone_opt_string(&self.label),
        }
    }
}

impl Default for FileSystem {
    /// A record with an empty device name and every optional field unset.
    fn default() -> (r: Self)
        ensures
            r@.block_device == Seq::<char>::empty(),
            r@.fstype is None,
            r@.mount_point is None,
            r@.transport is None,
            r@.label is None,
    {
        FileSystem {
            block_device: String::new(),
            fstype: None,
            mount_point: None,
            transport: None,
            label: None,
        }
    }
}

impl FileSystem {
    /// Whether the file system was mounted.
    pub fn is_mounted(&self) -> (r: bool)
        ensures
            r == (self@.mount_point is Some),
    {
        self.mount_point.is_some()
    }

    /// Kernel name of the block device containing the file system.
    pub fn device(&self) -> (r: String)
        ensures
            r@ == "/dev/"@ + self@.block_device,
    {
        let prefix: String = "/dev/".to_owned();
        prefix.concat(self.block_device.as_str())
    }

    /// Whether the file system can be mounted.
    ///
    /// File systems that cannot be mounted are ignored.
    pub(crate) fn can_be_mounted(&self) -> (r: bool)
        ensures
            r == mountable(self@),
    {
        match &self.fstype {
            None => false,
            Some(t) => {
                !(t.as_str().is_empty() || str_eq(t.as_str(), "crypto_LUKS") || str_eq(
                    t.as_str(),
                    "swap",
                ))
            },
        }
    }
}

} // verus!
