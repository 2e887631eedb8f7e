//! The discovery pipeline and the queryable catalog it produces.
//!
//! Discovery is a single forward pass over the inventory tool's output:
//! every line is parsed, the transport attribute is carried from a device to
//! the sub-devices that follow it in the output, and records that cannot
//! serve as mount targets are dropped. The surviving records form a
//! [`FileSystemsList`], an immutable snapshot with indexed lookups.

use crate::parser::{parse_line, spec_lines, spec_parse_line, split_lines};
use crate::record::{mountable, opt_view, seq_view, FileSystem, FsView};
use crate::record::{clone_opt_string, str_eq};
use vstd::prelude::*;

verus! {

/// The records described by the given lines, in order; malformed lines are
/// skipped.
pub open spec fn spec_parse_all(lines: Seq<Seq<char>>) -> Seq<FsView>
    decreases lines.len(),
{
    if lines.len() == 0 {
        Seq::empty()
    } else {
        let rest = spec_parse_all(lines.drop_first());
        match spec_parse_line(lines[0]) {
            None => rest,
            Some(r) => seq![r] + rest,
        }
    }
}

/// One forward pass that carries the last explicitly observed transport:
/// a record with an explicit transport updates the carried value, a record
/// without one receives the carried value.
pub open spec fn spec_inherit(rs: Seq<FsView>, carried: Option<Seq<char>>) -> Seq<FsView>
    decreases rs.len(),
{
    if rs.len() == 0 {
        Seq::empty()
    } else {
        match rs[0].transport {
            Some(t) => seq![rs[0]] + spec_inherit(rs.drop_first(), Some(t)),
            None => seq![FsView { transport: carried, ..rs[0] }] + spec_inherit(
                rs.drop_first(),
                carried,
            ),
        }
    }
}

/// The records of `rs` satisfying `p`, in order.
pub open spec fn spec_keep(rs: Seq<FsView>, p: spec_fn(FsView) -> bool) -> Seq<FsView>
    decreases rs.len(),
{
    if rs.len() == 0 {
        Seq::empty()
    } else if p(rs[0]) {
        seq![rs[0]] + spec_keep(rs.drop_first(), p)
    } else {
        spec_keep(rs.drop_first(), p)
    }
}

/// The records that can serve as mount targets, in order.
pub open spec fn spec_eligible(rs: Seq<FsView>) -> Seq<FsView> {
    spec_keep(rs, |r: FsView| mountable(r))
}

/// The catalog described by the inventory tool's whole output: its lines
/// parsed, transports inherited, and non-mountable records dropped.
pub open spec fn spec_catalog(s: Seq<char>) -> Seq<FsView> {
    spec_eligible(spec_inherit(spec_parse_all(spec_lines(s)), None))
}

/// The first record whose device name is `name`.
pub open spec fn spec_first_with_name(rs: Seq<FsView>, name: Seq<char>) -> Option<FsView>
    decreases rs.len(),
{
    if rs.len() == 0 {
        None
    } else if rs[0].block_device == name {
        Some(rs[0])
    } else {
        spec_first_with_name(rs.drop_first(), name)
    }
}

/// The records whose label is `label`, in order.
pub open spec fn spec_with_label(rs: Seq<FsView>, label: Seq<char>) -> Seq<FsView> {
    spec_keep(rs, |r: FsView| r.label == Some(label))
}

/// The records whose transport, explicit or inherited, is `transport`, in
/// order.
pub open spec fn spec_with_transport(rs: Seq<FsView>, transport: Seq<char>) -> Seq<FsView> {
    spec_keep(rs, |r: FsView| r.transport == Some(transport))
}

/// Implements the logic to read the file systems from the underlying system.
///
/// It turns the inventory tool's textual output into records; obtaining that
/// output from a live system is its callers' concern, so the pipeline can be
/// exercised deterministically.
pub struct FileSystemsReader {}

impl FileSystemsReader {
    /// Turns the inventory tool's output into a list of file systems.
    pub fn read_from_string(lsblk_string: &str) -> (r: Vec<FileSystem>)
        ensures
            seq_view(r@) == spec_catalog(lsblk_string@),
    {
        let lines = split_lines(lsblk_string);
        let parsed = Self::parse_lines(&lines);
        let inherited = Self::inherit_transports(parsed);
        Self::eligible_only(inherited)
    }

    /// Parses every line, skipping the malformed ones.
    fn parse_lines(lines: &Vec<String>) -> (r: Vec<FileSystem>)
        ensures
            seq_view(r@) == spec_parse_all(lines@.map_values(|l: String| l@)),
    {
        let ghost lv = lines@.map_values(|l: String| l@);
        let n: usize = lines.len();
        let mut out: Vec<FileSystem> = Vec::new();
        let mut i: usize = 0;
        proof {
            assert(lv.subrange(0, n as int) =~= lv);
        }
        while i < n
            invariant
                i <= n,
                n == lines@.len(),
                lv == lines@.map_values(|l: String| l@),
                lv.len() == n,
                seq_view(out@) + spec_parse_all(lv.subrange(i as int, n as int)) == spec_parse_all(
                    lv,
                ),
            decreases n - i,
        {
            let ghost old_out = out@;
            proof {
                assert(lv.subrange(i as int, n as int).drop_first() =~= lv.subrange(
                    i as int + 1,
                    n as int,
                ));
            }
            match parse_line(lines[i].as_str()) {
                None => {},
                Some(fs) => {
                    out.push(fs);
                    proof {
                        assert(seq_view(out@) =~= seq_view(old_out).push(out@.last()@));
                        assert(seq_view(old_out) + (seq![out@.last()@] + spec_parse_all(
                            lv.subrange(i as int + 1, n as int),
                        )) =~= seq_view(out@) + spec_parse_all(lv.subrange(i as int + 1, n as int)));
                    }
                },
            }
            i = i + 1;
        }
        proof {
            assert(lv.subrange(n as int, n as int) =~= Seq::<Seq<char>>::empty());
        }
        out
    }

    /// Hands the last explicitly observed transport down to the records that
    /// follow without one.
    fn inherit_transports(recs: Vec<FileSystem>) -> (r: Vec<FileSystem>)
        ensures
            seq_view(r@) == spec_inherit(seq_view(recs@), None),
    {
        let ghost rv = seq_view(recs@);
        let n: usize = recs.len();
        let mut out: Vec<FileSystem> = Vec::new();
        let mut carried: Option<String> = None;
        let mut i: usize = 0;
        proof {
            assert(rv.subrange(0, n as int) =~= rv);
        }
        while i < n
            invariant
                i <= n,
                n == recs@.len(),
                rv == seq_view(recs@),
                rv.len() == n,
                seq_view(out@) + spec_inherit(rv.subrange(i as int, n as int), opt_view(carried))
                    == spec_inherit(rv, None),
            decreases n - i,
        {
            let ghost old_out = out@;
            proof {
                assert(rv.subrange(i as int, n as int).drop_first() =~= rv.subrange(
                    i as int + 1,
                    n as int,
                ));
            }
            let mut fs = recs[i].clone();
            match &fs.transport {
                Some(t) => {
                    carried = Some(t.clone());
                },
                None => {
                    fs.transport = clone_opt_string(&carried);
                },
            }
            out.push(fs);
            proof {
                assert(seq_view(out@) =~= seq_view(old_out).push(out@.last()@));
                assert(seq_view(old_out) + (seq![out@.last()@] + spec_inherit(
                    rv.subrange(i as int + 1, n as int),
                    opt_view(carried),
                )) =~= seq_view(out@) + spec_inherit(
                    rv.subrange(i as int + 1, n as int),
                    opt_view(carried),
                ));
            }
            i = i + 1;
        }
        proof {
            assert(rv.subrange(n as int, n as int) =~= Seq::<FsView>::empty());
        }
        out
    }

    /// Keeps the records that can serve as mount targets.
    fn eligible_only(recs: Vec<FileSystem>) -> (r: Vec<FileSystem>)
        ensures
            seq_view(r@) == spec_eligible(seq_view(recs@)),
    {
        let ghost rv = seq_view(recs@);
        let n: usize = recs.len();
        let mut out: Vec<FileSystem> = Vec::new();
        let mut i: usize = 0;
        proof {
            assert(rv.subrange(0, n as int) =~= rv);
        }
        while i < n
            invariant
                i <= n,
                n == recs@.len(),
                rv == seq_view(recs@),
                rv.len() == n,
                seq_view(out@) + spec_eligible(rv.subrange(i as int, n as int)) == spec_eligible(
                    rv,
                ),
            decreases n - i,
        {
            let ghost old_out = out@;
            proof {
                assert(rv.subrange(i as int, n as int).drop_first() =~= rv.subrange(
                    i as int + 1,
                    n as int,
                ));
            }
            if recs[i].can_be_mounted() {
                let fs = recs[i].clone();
                out.push(fs);
                proof {
                    assert(seq_view(out@) =~= seq_view(old_out).push(out@.last()@));
                    assert(seq_view(old_out) + (seq![out@.last()@] + spec_eligible(
                        rv.subrange(i as int + 1, n as int),
                    )) =~= seq_view(out@) + spec_eligible(rv.subrange(i as int + 1, n as int)));
                }
            }
            i = i + 1;
        }
        proof {
            assert(rv.subrange(n as int, n as int) =~= Seq::<FsView>::empty());
        }
        out
    }
}

/// Holds a list of file systems.
///
/// It offers a set of convenience methods to search within the list.
pub struct FileSystemsList {
    file_systems: Vec<FileSystem>,
}

impl View for FileSystemsList {
    type V = Seq<FsView>;

    closed spec fn view(&self) -> Seq<FsView> {
        seq_view(self.file_systems@)
    }
}

impl Default for FileSystemsList {
    /// The empty list.
    fn default() -> (r: Self)
        ensures
            r@ == Seq::<FsView>::empty(),
    {
        proof {
            assert(seq_view(Seq::<FileSystem>::empty()) =~= Seq::<FsView>::empty());
        }
        FileSystemsList { file_systems: Vec::new() }
    }
}

impl FileSystemsList {
    /// Creates a list of file systems.
    pub fn new(file_systems: Vec<FileSystem>) -> (r: Self)
        ensures
            r@ == seq_view(file_systems@),
    {
        Self { file_systems }
    }

    /// Creates a list for the file systems described by the inventory
    /// tool's output.
    pub fn from_listing(listing: &str) -> (r: Self)
        ensures
            r@ == spec_catalog(listing@),
    {
        Self::new(FileSystemsReader::read_from_string(listing))
    }

    /// A copy of the records, in discovery order; changes to it never touch
    /// the list itself.
    pub fn to_vec(&self) -> (r: Vec<FileSystem>)
        ensures
            seq_view(r@) == self@,
    {
        let n: usize = self.file_systems.len();
        let mut out: Vec<FileSystem> = Vec::new();
        let mut i: usize = 0;
        while i < n
            invariant
                i <= n,
                n == self.file_systems@.len(),
                out@ == self.file_systems@.subrange(0, i as int),
            decreases n - i,
        {
            out.push(self.file_systems[i].clone());
            proof {
                assert(out@ =~= self.file_systems@.subrange(0, i as int + 1));
            }
            i = i + 1;
        }
        proof {
            assert(self.file_systems@.subrange(0, n as int) =~= self.file_systems@);
        }
        out
    }

    /// Returns the file system with the given block device name.
    ///
    /// * `name`: block device name.
    pub fn by_name(&self, name: &str) -> (r: Option<&FileSystem>)
        ensures
            match r {
                Some(fs) => spec_first_with_name(self@, name@) == Some(fs@) && fs@.block_device
                    == name@,
                None => spec_first_with_name(self@, name@) is None,
            },
    {
        let n: usize = self.file_systems.len();
        let mut i: usize = 0;
        proof {
            assert(self@.subrange(0, n as int) =~= self@);
        }
        while i < n
            invariant
                i <= n,
                n == self.file_systems@.len(),
                spec_first_with_name(self@, name@) == spec_first_with_name(
                    self@.subrange(i as int, n as int),
                    name@,
                ),
            decreases n - i,
        {
            proof {
                assert(self@.subrange(i as int, n as int).drop_first() =~= self@.subrange(
                    i as int + 1,
                    n as int,
                ));
            }
            if str_eq(name, self.file_systems[i].block_device.as_str()) {
                return Some(&self.file_systems[i]);
            }
            i = i + 1;
        }
        proof {
            assert(self@.subrange(n as int, n as int) =~= Seq::<FsView>::empty());
        }
        None
    }

    /// Returns the file systems with the given label name.
    ///
    /// * `label`: device label.
    pub fn by_label(&mut self, label: &str) -> (r: Self)
        ensures
            final(self)@ == old(self)@,
            r@ == spec_with_label(old(self)@, label@),
    {
        let n: usize = self.file_systems.len();
        let mut out: Vec<FileSystem> = Vec::new();
        let mut i: usize = 0;
        proof {
            assert(self@.subrange(0, n as int) =~= self@);
        }
        while i < n
            invariant
                i <= n,
                n == self.file_systems@.len(),
                self == old(self),
                seq_view(out@) + spec_with_label(self@.subrange(i as int, n as int), label@)
                    == spec_with_label(self@, label@),
            decreases n - i,
        {
            let ghost old_out = out@;
            proof {
                assert(self@.subrange(i as int, n as int).drop_first() =~= self@.subrange(
                    i as int + 1,
                    n as int,
                ));
            }
            if opt_matches(&self.file_systems[i].label, label) {
                out.push(self.file_systems[i].clone());
                proof {
                    assert(seq_view(out@) =~= seq_view(old_out).push(out@.last()@));
                    assert(seq_view(old_out) + (seq![out@.last()@] + spec_with_label(
                        self@.subrange(i as int + 1, n as int),
                        label@,
                    )) =~= seq_view(out@) + spec_with_label(
                        self@.subrange(i as int + 1, n as int),
                        label@,
                    ));
                }
            }
            i = i + 1;
        }
        proof {
            assert(self@.subrange(n as int, n as int) =~= Seq::<FsView>::empty());
        }
        FileSystemsList { file_systems: out }
    }

    /// Returns the file systems using the given transport.
    ///
    /// * `transport`: transport of the device (e.g., "usb").
    pub fn by_transport(&mut self, transport: &str) -> (r: Self)
        ensures
            final(self)@ == old(self)@,
            r@ == spec_with_transport(old(self)@, transport@),
    {
        let n: usize = self.file_systems.len();
        let mut out: Vec<FileSystem> = Vec::new();
        let mut i: usize = 0;
        proof {
            assert(self@.subrange(0, n as int) =~= self@);
        }
        while i < n
            invariant
                i <= n,
                n == self.file_systems@.len(),
                self == old(self),
                seq_view(out@) + spec_with_transport(self@.subrange(i as int, n as int), transport@)
                    == spec_with_transport(self@, transport@),
            decreases n - i,
        {
            let ghost old_out = out@;
            proof {
                assert(self@.subrange(i as int, n as int).drop_first() =~= self@.subrange(
                    i as int + 1,
                    n as int,
                ));
            }
            if opt_matches(&self.file_systems[i].transport, transport) {
                out.push(self.file_systems[i].clone());
                proof {
                    assert(seq_view(out@) =~= seq_view(old_out).push(out@.last()@));
                    assert(seq_view(old_out) + (seq![out@.last()@] + spec_with_transport(
                        self@.subrange(i as int + 1, n as int),
                        transport@,
                    )) =~= seq_view(out@) + spec_with_transport(
                        self@.subrange(i as int + 1, n as int),
                        transport@,
                    ));
                }
            }
            i = i + 1;
        }
        proof {
            assert(self@.subrange(n as int, n as int) =~= Seq::<FsView>::empty());
        }
        FileSystemsList { file_systems: out }
    }
}

/// Whether an optional field holds exactly the given value.
fn opt_matches(o: &Option<String>, value: &str) -> (r: bool)
    ensures
        r == (opt_view(*o) == Some(value@)),
{
    match o {
        None => false,
        Some(s) => str_eq(s.as_str(), value),
    }
}

/// Records without an explicit transport all receive the carried value, and
/// leave it untouched.
proof fn lemma_inherit_all_none(rs: Seq<FsView>, carried: Option<Seq<char>>)
    requires
        forall|i: int| 0 <= i < rs.len() ==> (#[trigger] rs[i]).transport is None,
    ensures
        spec_inherit(rs, carried).len() == rs.len(),
        forall|i: int|
            0 <= i < rs.len() ==> (#[trigger] spec_inherit(rs, carried)[i]).transport == carried,
    decreases rs.len(),
{
    if rs.len() > 0 {
        lemma_inherit_all_none(rs.drop_first(), carried);
    }
}

/// Inheritance: a record with explicit transport `t` followed only by
/// records without one hands `t` down to all of them, whatever transport
/// was carried into the scan.
pub proof fn lemma_transport_inheritance(rs: Seq<FsView>, t: Seq<char>, carried: Option<Seq<char>>)
    requires
        rs.len() > 0,
        rs[0].transport == Some(t),
        forall|i: int| 1 <= i < rs.len() ==> (#[trigger] rs[i]).transport is None,
    ensures
        spec_inherit(rs, carried).len() == rs.len(),
        forall|i: int|
            0 <= i < rs.len() ==> (#[trigger] spec_inherit(rs, carried)[i]).transport == Some(t),
{
    let tail = rs.drop_first();
    assert forall|i: int| 0 <= i < tail.len() implies (#[trigger] tail[i]).transport is None by {
        assert(tail[i] == rs[i + 1]);
    };
    lemma_inherit_all_none(tail, Some(t));
}

/// The last explicit transport among `rs`, or the carried value when no
/// record of `rs` has one.
pub open spec fn last_explicit(rs: Seq<FsView>, carried: Option<Seq<char>>) -> Option<Seq<char>>
    decreases rs.len(),
{
    if rs.len() == 0 {
        carried
    } else {
        match rs[0].transport {
            Some(t) => last_explicit(rs.drop_first(), Some(t)),
            None => last_explicit(rs.drop_first(), carried),
        }
    }
}

/// What inheritance gives each record: its own transport when explicit,
/// otherwise the last explicit transport among the records before it (or
/// the carried value when there is none). Every other field is untouched.
/// In particular, a record is never affected by a record that follows it,
/// nor by a preceding record without an explicit transport.
pub proof fn lemma_inherit_characterization(rs: Seq<FsView>, carried: Option<Seq<char>>)
    ensures
        spec_inherit(rs, carried).len() == rs.len(),
        forall|i: int|
            0 <= i < rs.len() ==> (#[trigger] spec_inherit(rs, carried)[i]).transport == (
            match rs[i].transport {
                Some(t) => Some(t),
                None => last_explicit(rs.subrange(0, i), carried),
            }),
        forall|i: int|
            0 <= i < rs.len() ==> {
                let out = #[trigger] spec_inherit(rs, carried)[i];
                &&& out.block_device == rs[i].block_device
                &&& out.fstype == rs[i].fstype
                &&& out.mount_point == rs[i].mount_point
                &&& out.label == rs[i].label
            },
    decreases rs.len(),
{
    if rs.len() > 0 {
        let c2 = match rs[0].transport {
            Some(t) => Some(t),
            None => carried,
        };
        let tail = rs.drop_first();
        lemma_inherit_characterization(tail, c2);
        assert(rs.subrange(0, 0) =~= Seq::<FsView>::empty());
        assert forall|i: int|
            1 <= i < rs.len() implies (#[trigger] spec_inherit(rs, carried)[i]).transport == (
        match rs[i].transport {
            Some(t) => Some(t),
            None => last_explicit(rs.subrange(0, i), carried),
        }) by {
            let sub = rs.subrange(0, i);
            assert(sub[0] == rs[0]);
            assert(sub.drop_first() =~= tail.subrange(0, i - 1));
            assert(last_explicit(sub, carried) == last_explicit(tail.subrange(0, i - 1), c2));
            assert(spec_inherit(rs, carried)[i] == spec_inherit(tail, c2)[i - 1]);
            assert(tail[i - 1] == rs[i]);
        };
    }
}

/// Membership in a kept sequence: a record appears after filtering exactly
/// when it appears in the source and satisfies the predicate.
pub proof fn lemma_keep_membership(rs: Seq<FsView>, p: spec_fn(FsView) -> bool)
    ensures
        forall|r: FsView| #[trigger] spec_keep(rs, p).contains(r) <==> (rs.contains(r) && p(r)),
    decreases rs.len(),
{
    if rs.len() == 0 {
        assert(forall|r: FsView| !rs.contains(r));
        assert(forall|r: FsView| !spec_keep(rs, p).contains(r));
    } else {
        let tail = rs.drop_first();
        lemma_keep_membership(tail, p);
        assert forall|r: FsView| #[trigger] spec_keep(rs, p).contains(r) implies rs.contains(r)
            && p(r) by {
            let e = spec_keep(rs, p);
            let i = choose|i: int| 0 <= i < e.len() && e[i] == r;
            if p(rs[0]) {
                if i == 0 {
                    assert(rs[0] == r);
                } else {
                    assert(spec_keep(tail, p)[i - 1] == r);
                    assert(spec_keep(tail, p).contains(r));
                    let j = choose|j: int| 0 <= j < tail.len() && tail[j] == r;
                    assert(rs[j + 1] == r);
                }
            } else {
                assert(spec_keep(tail, p)[i] == r);
                assert(spec_keep(tail, p).contains(r));
                let j = choose|j: int| 0 <= j < tail.len() && tail[j] == r;
                assert(rs[j + 1] == r);
            }
        };
        assert forall|r: FsView| rs.contains(r) && p(r) implies #[trigger] spec_keep(
            rs,
            p,
        ).contains(r) by {
            let i = choose|i: int| 0 <= i < rs.len() && rs[i] == r;
            if i == 0 {
                assert(spec_keep(rs, p)[0] == r);
            } else {
                assert(tail[i - 1] == r);
                assert(tail.contains(r));
                assert(spec_keep(tail, p).contains(r));
                let j = choose|j: int|
                    0 <= j < spec_keep(tail, p).len() && spec_keep(tail, p)[j] == r;
                if p(rs[0]) {
                    assert(spec_keep(rs, p)[j + 1] == r);
                } else {
                    assert(spec_keep(rs, p)[j] == r);
                }
            }
        };
    }
}

/// Filtering: the catalog holds exactly the records that can serve as mount
/// targets; none with an absent or empty file-system type, an
/// encrypted-container marker, or a swap marker survives it.
pub proof fn lemma_eligible_membership(rs: Seq<FsView>)
    ensures
        forall|r: FsView| #[trigger] spec_eligible(rs).contains(r) <==> (rs.contains(r)
            && mountable(r)),
{
    lemma_keep_membership(rs, |r: FsView| mountable(r));
}

/// Every record of a catalog built from inventory output can serve as a
/// mount target.
pub proof fn lemma_catalog_mountable(s: Seq<char>)
    ensures
        forall|i: int|
            0 <= i < spec_catalog(s).len() ==> mountable(#[trigger] spec_catalog(s)[i]),
{
    let inherited = spec_inherit(spec_parse_all(spec_lines(s)), None);
    lemma_eligible_membership(inherited);
    assert forall|i: int|
        0 <= i < spec_catalog(s).len() implies mountable(#[trigger] spec_catalog(s)[i]) by {
        assert(spec_catalog(s).contains(spec_catalog(s)[i]));
    };
}

/// `by_label` keeps exactly the records whose label equals the queried
/// value, and no others.
pub proof fn lemma_with_label_membership(rs: Seq<FsView>, label: Seq<char>)
    ensures
        forall|r: FsView| #[trigger] spec_with_label(rs, label).contains(r) <==> (rs.contains(r)
            && r.label == Some(label)),
{
    lemma_keep_membership(rs, |r: FsView| r.label == Some(label));
}

/// `by_transport` keeps exactly the records whose transport, explicit or
/// inherited, equals the queried value, and no others.
pub proof fn lemma_with_transport_membership(rs: Seq<FsView>, transport: Seq<char>)
    ensures
        forall|r: FsView| #[trigger] spec_with_transport(rs, transport).contains(r) <==> (
        rs.contains(r) && r.transport == Some(transport)),
{
    lemma_keep_membership(rs, |r: FsView| r.transport == Some(transport));
}

/// What `by_name` finds: `None` exactly when no record carries the queried
/// device name, otherwise the first record that does, whose device name
/// equals the query.
pub proof fn lemma_first_with_name(rs: Seq<FsView>, name: Seq<char>)
    ensures
        match spec_first_with_name(rs, name) {
            None => forall|i: int| 0 <= i < rs.len() ==> (#[trigger] rs[i]).block_device != name,
            Some(r) => r.block_device == name && rs.contains(r),
        },
    decreases rs.len(),
{
    if rs.len() > 0 {
        let tail = rs.drop_first();
        lemma_first_with_name(tail, name);
        if rs[0].block_device != name {
            match spec_first_with_name(tail, name) {
                None => {
                    assert forall|i: int|
                        0 <= i < rs.len() implies (#[trigger] rs[i]).block_device != name by {
                        if i > 0 {
                            assert(tail[i - 1] == rs[i]);
                        }
                    };
                },
                Some(r) => {
                    let j = choose|j: int| 0 <= j < tail.len() && tail[j] == r;
                    assert(rs[j + 1] == r);
                },
            }
        }
    }
}

/// With device names unique in the list, the record `by_name` finds is the
/// only one bearing the queried name: `by_name` returns exactly one record
/// or none.
pub proof fn lemma_first_with_name_unique(rs: Seq<FsView>, name: Seq<char>)
    requires
        forall|i: int, j: int|
            0 <= i < j < rs.len() ==> (#[trigger] rs[i]).block_device != (
            #[trigger] rs[j]).block_device,
    ensures
        spec_first_with_name(rs, name) matches Some(r) ==> forall|i: int|
            0 <= i < rs.len() && (#[trigger] rs[i]).block_device == name ==> rs[i] == r,
    decreases rs.len(),
{
    if rs.len() > 0 && spec_first_with_name(rs, name) is Some {
        let r = spec_first_with_name(rs, name)->0;
        if rs[0].block_device == name {
            assert forall|i: int|
                0 <= i < rs.len() && (#[trigger] rs[i]).block_device == name implies rs[i]
                == r by {
                if i != 0 {
                    assert(rs[0].block_device != rs[i].block_device);
                }
            };
        } else {
            let tail = rs.drop_first();
            assert forall|i: int, j: int|
                0 <= i < j < tail.len() implies (#[trigger] tail[i]).block_device != (
            #[trigger] tail[j]).block_device by {
                assert(tail[i] == rs[i + 1]);
                assert(tail[j] == rs[j + 1]);
            };
            lemma_first_with_name_unique(tail, name);
            assert forall|i: int|
                0 <= i < rs.len() && (#[trigger] rs[i]).block_device == name implies rs[i]
                == r by {
                assert(i > 0);
                assert(tail[i - 1] == rs[i]);
            };
        }
    }
}

} // verus!
