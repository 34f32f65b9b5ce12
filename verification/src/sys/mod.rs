//! The network interfaces of the machine, as the kernel shows them: which
//! names are looked at, and which of them are live.

use vstd::prelude::*;
use crate::sys::interface::{
    carrier_after, carrier_up, is_live, live_interface, loopback, permanent_address, Interface,
    InterfaceView, Readings, ReadingsView, MAX_ATTEMPTS,
};
use crate::sys::scan::{
    advanced, finished, interface_views, lemma_advance, lemma_next_candidate,
    next_candidate, scan_wf, started, steps_left, Scan, ScanView, Step,
};
use crate::text::{base_root, base_root_path, join_path, joined, opt_view, string_views};

pub mod interface;
pub mod scan;

verus! {

/// The live interfaces of a machine, and the directory they were found in.
#[derive(Debug)]
pub struct SysInterfaces {
    pub root: String,
    pub interfaces: Vec<Interface>,
}

/// A `SysInterfaces` as the contracts speak of it.
pub struct SysInterfacesView {
    pub root: Seq<char>,
    pub interfaces: Seq<InterfaceView>,
}

impl View for SysInterfaces {
    type V = SysInterfacesView;

    open spec fn view(&self) -> SysInterfacesView {
        SysInterfacesView { root: self.root@, interfaces: interface_views(self.interfaces@) }
    }
}

/// The directory that holds one directory per interface.
pub open spec fn sys_root(root: Option<Seq<char>>) -> Seq<char> {
    joined(base_root(root), "sys/class/net"@)
}

/// The names to look at: the one that was asked for, or else all that the
/// directory lists.
pub open spec fn candidate_names(interface: Option<Seq<char>>, listing: Seq<Seq<char>>) -> Seq<
    Seq<char>,
> {
    match interface {
        Some(name) => seq![name],
        None => listing,
    }
}

/// The readings of an interface none of whose files can be read.
pub open spec fn unreadable() -> ReadingsView {
    ReadingsView { addr_assign_type: None, carrier: Seq::empty(), address: None }
}

/// The readings of the candidate at `position`; a candidate without
/// readings has files that cannot be read.
pub open spec fn readings_at(readings: Seq<ReadingsView>, position: int) -> ReadingsView {
    if 0 <= position < readings.len() {
        readings[position]
    } else {
        unreadable()
    }
}

/// The views of a run of readings.
pub open spec fn readings_views(readings: Seq<Readings>) -> Seq<ReadingsView> {
    Seq::new(readings.len(), |i: int| readings[i]@)
}

/// The live interfaces among `names`, in the order of the names, where
/// `readings` holds at each position what the files of that name hold.
pub open spec fn live_interfaces(
    names: Seq<Seq<char>>,
    noop: bool,
    readings: Seq<ReadingsView>,
) -> Seq<InterfaceView>
    decreases names.len(),
{
    if names.len() == 0 {
        Seq::empty()
    } else {
        let before = live_interfaces(names.drop_last(), noop, readings);
        match live_interface(names.last(), noop, readings_at(readings, names.len() - 1)) {
            Some(interface) => before.push(interface),
            None => before,
        }
    }
}

/// The loopback is never among the live interfaces.
pub proof fn lemma_no_loopback(names: Seq<Seq<char>>, noop: bool, readings: Seq<ReadingsView>)
    ensures
        forall|i: int|
            0 <= i < live_interfaces(names, noop, readings).len() ==> (#[trigger] live_interfaces(
                names,
                noop,
                readings,
            )[i]).iface != loopback(),
    decreases names.len(),
{
    if names.len() > 0 {
        lemma_no_loopback(names.drop_last(), noop, readings);
        let before = live_interfaces(names.drop_last(), noop, readings);
        let all = live_interfaces(names, noop, readings);
        assert forall|i: int| 0 <= i < all.len() implies (#[trigger] all[i]).iface
            != loopback() by {
            if i < before.len() {
                assert(all[i] == before[i]);
            }
        }
    }
}

/// What a scan gets back for what it asks for, where the files hold what
/// `readings` says.
pub open spec fn answer(scan: ScanView, readings: Seq<ReadingsView>) -> Option<Seq<char>> {
    if finished(scan) {
        None
    } else {
        let files = readings_at(readings, scan.position);
        match scan.step {
            Step::AssignType => files.addr_assign_type,
            Step::Carrier => carrier_after(files.carrier, scan.attempts),
            Step::BringUp => None,
            Step::Address => files.address,
        }
    }
}

/// The scan agrees with `readings` so far: it holds the live interfaces among
/// the candidates it has left behind, and what it knows of its candidate is
/// what the readings say.
pub open spec fn consistent(scan: ScanView, readings: Seq<ReadingsView>) -> bool {
    &&& scan.interfaces == live_interfaces(
        scan.candidates.take(scan.position),
        scan.noop,
        readings,
    )
    &&& !finished(scan) ==> {
        let files = readings_at(readings, scan.position);
        match scan.step {
            Step::AssignType => true,
            Step::Carrier => {
                &&& permanent_address(files.addr_assign_type)
                &&& forall|k: int|
                    0 <= k < scan.attempts ==> !carrier_up(#[trigger] carrier_after(files.carrier, k))
            },
            Step::BringUp => {
                &&& permanent_address(files.addr_assign_type)
                &&& forall|k: int|
                    0 <= k <= scan.attempts ==> !carrier_up(
                        #[trigger] carrier_after(files.carrier, k),
                    )
            },
            Step::Address => {
                &&& permanent_address(files.addr_assign_type)
                &&& is_live(scan.noop, files.carrier)
            },
        }
    }
}

/// Loopbacks among the candidates add nothing to the live interfaces.
proof fn lemma_skipped(names: Seq<Seq<char>>, noop: bool, readings: Seq<ReadingsView>, from: int)
    requires
        0 <= from <= names.len(),
    ensures
        live_interfaces(names.take(next_candidate(names, from)), noop, readings)
            == live_interfaces(names.take(from), noop, readings),
    decreases names.len() - from,
{
    if from < names.len() && names[from] == loopback() {
        lemma_skipped(names, noop, readings, from + 1);
        assert(names.take(from + 1).drop_last() == names.take(from));
    }
}

/// A scan that agrees with the readings still agrees with them after the
/// step that they answer.
pub proof fn lemma_replay_step(scan: ScanView, readings: Seq<ReadingsView>)
    requires
        scan_wf(scan),
        consistent(scan, readings),
    ensures
        consistent(advanced(scan, answer(scan, readings)), readings),
{
    if !finished(scan) {
        let names = scan.candidates;
        let files = readings_at(readings, scan.position);
        let outcome = answer(scan, readings);
        let next = advanced(scan, outcome);
        let own = live_interface(names[scan.position], scan.noop, files);
        lemma_next_candidate(names, scan.position + 1);
        lemma_skipped(names, scan.noop, readings, scan.position + 1);
        assert(names.take(scan.position + 1).drop_last() == names.take(scan.position));
        assert(names.take(scan.position + 1).last() == names[scan.position]);
        assert(names.take(scan.position + 1).len() - 1 == scan.position);
        let behind = live_interfaces(names.take(scan.position + 1), scan.noop, readings);
        assert(behind == match own {
            Some(interface) => scan.interfaces.push(interface),
            None => scan.interfaces,
        });
        match scan.step {
            Step::AssignType => {
                if !permanent_address(outcome) {
                    assert(own is None);
                }
            },
            Step::Carrier => {
                assert(!carrier_up(outcome) ==> forall|k: int|
                    0 <= k <= scan.attempts ==> !carrier_up(
                        #[trigger] carrier_after(files.carrier, k),
                    ));
                if carrier_up(outcome) {
                    assert(carrier_up(carrier_after(files.carrier, scan.attempts)));
                    assert(is_live(scan.noop, files.carrier));
                } else if scan.noop || scan.attempts >= MAX_ATTEMPTS {
                    assert(!is_live(scan.noop, files.carrier));
                    assert(own is None);
                }
            },
            Step::BringUp => {},
            Step::Address => {
                assert(names[scan.position] != loopback());
            },
        }
        assert(consistent(next, readings));
    }
}

/// A scan that is over and agrees with the readings holds the live
/// interfaces among all its candidates.
pub proof fn lemma_replay_end(scan: ScanView, readings: Seq<ReadingsView>)
    requires
        scan_wf(scan),
        consistent(scan, readings),
        finished(scan),
    ensures
        scan.interfaces == live_interfaces(scan.candidates, scan.noop, readings),
{
    assert(scan.candidates.take(scan.position) == scan.candidates);
}

/// The scan after every step that `readings` answers, up to its end.
pub open spec fn completed(scan: ScanView, readings: Seq<ReadingsView>) -> ScanView
    decreases steps_left(scan),
    when scan_wf(scan)
    via completed_decreases
{
    if finished(scan) {
        scan
    } else {
        completed(advanced(scan, answer(scan, readings)), readings)
    }
}

#[via_fn]
proof fn completed_decreases(scan: ScanView, readings: Seq<ReadingsView>) {
    lemma_advance(scan, answer(scan, readings));
}

/// A scan that agrees with the readings and is answered from them to its end
/// holds the live interfaces among all its candidates.
pub proof fn lemma_completed(scan: ScanView, readings: Seq<ReadingsView>)
    requires
        scan_wf(scan),
        consistent(scan, readings),
    ensures
        finished(completed(scan, readings)),
        scan_wf(completed(scan, readings)),
        completed(scan, readings).interfaces == live_interfaces(
            scan.candidates,
            scan.noop,
            readings,
        ),
    decreases steps_left(scan),
{
    if finished(scan) {
        lemma_replay_end(scan, readings);
    } else {
        lemma_advance(scan, answer(scan, readings));
        lemma_replay_step(scan, readings);
        lemma_completed(advanced(scan, answer(scan, readings)), readings);
    }
}

/// A scan from its start, answered from the readings to its end, finds
/// exactly the live interfaces among its candidates: the steps of the scan
/// and the rule for one interface agree.
pub proof fn lemma_scan_finds_live(
    root_path: Seq<char>,
    names: Seq<Seq<char>>,
    noop: bool,
    readings: Seq<ReadingsView>,
)
    ensures
        completed(started(root_path, names, noop), readings).interfaces == live_interfaces(
            names,
            noop,
            readings,
        ),
{
    let scan = started(root_path, names, noop);
    lemma_next_candidate(names, 0);
    lemma_skipped(names, noop, readings, 0);
    assert(names.take(0) =~= Seq::<Seq<char>>::empty());
    lemma_completed(scan, readings);
}

/// A copy of an optional string.
fn clone_reading(reading: &Option<String>) -> (copy: Option<String>)
    ensures
        opt_view(copy) == opt_view(*reading),
{
    match reading {
        Some(text) => Some(text.clone()),
        None => None,
    }
}

/// What `readings` answers to what `scan` asks for.
fn answer_from(scan: &Scan, readings: &Vec<Readings>) -> (outcome: Option<String>)
    ensures
        opt_view(outcome) == answer(scan@, readings_views(readings@)),
{
    if scan.is_finished() {
        return None;
    }
    let position = scan.position();
    if position >= readings.len() {
        return None;
    }
    let files = &readings[position];
    match scan.step() {
        Step::AssignType => clone_reading(&files.addr_assign_type),
        Step::Carrier => {
            let attempts = scan.attempts();
            if attempts < files.carrier.len() {
                clone_reading(&files.carrier[attempts])
            } else {
                None
            }
        },
        Step::BringUp => None,
        Step::Address => clone_reading(&files.address),
    }
}

/// The names to look at: the one that was asked for, or else all of
/// `listing`.
pub fn candidates(interface: &Option<String>, listing: &Vec<String>) -> (names: Vec<String>)
    ensures
        string_views(names@) == candidate_names(opt_view(*interface), string_views(listing@)),
{
    let mut names: Vec<String> = Vec::new();
    match interface {
        Some(name) => {
            names.push(name.clone());
            proof {
                assert(string_views(names@) =~= seq![name@]);
            }
        },
        None => {
            let mut i: usize = 0;
            while i < listing.len()
                invariant
                    i <= listing@.len(),
                    names@.len() == i,
                    forall|k: int| 0 <= k < i ==> names@[k]@ == listing@[k]@,
                decreases listing@.len() - i,
            {
                names.push(listing[i].clone());
                i = i + 1;
            }
            proof {
                assert(string_views(names@) =~= string_views(listing@));
            }
        },
    }
    names
}

/// Scans `names`, whose directories lie in `root_path`, against files that
/// hold what `readings` says, and yields the live interfaces among them.
pub fn get_interfaces(
    root_path: &str,
    names: Vec<String>,
    noop: bool,
    readings: &Vec<Readings>,
) -> (interfaces: Vec<Interface>)
    ensures
        interface_views(interfaces@) == live_interfaces(
            string_views(names@),
            noop,
            readings_views(readings@),
        ),
        forall|i: int| 0 <= i < interfaces@.len() ==> (#[trigger] interfaces@[i]).iface@ != loopback(),
{
    let ghost all = string_views(names@);
    let ghost files = readings_views(readings@);
    let mut scan = Scan::new(String::from_str(root_path), names, noop);
    proof {
        assert(all.take(scan@.position).len() == scan@.position) by {
            lemma_next_candidate(all, 0);
        }
        lemma_skipped(all, noop, files, 0);
        assert(all.take(0) =~= Seq::<Seq<char>>::empty());
    }
    while !scan.is_finished()
        invariant
            scan.wf(),
            scan@.candidates == all,
            scan@.noop == noop,
            files == readings_views(readings@),
            consistent(scan@, files),
        decreases steps_left(scan@),
    {
        let outcome = answer_from(&scan, readings);
        proof {
            lemma_advance(scan@, opt_view(outcome));
            lemma_replay_step(scan@, files);
        }
        scan.advance(outcome);
    }
    proof {
        lemma_replay_end(scan@, files);
        lemma_no_loopback(all, noop, files);
    }
    let interfaces = scan.into_interfaces();
    proof {
        assert forall|i: int| 0 <= i < interfaces@.len() implies (#[trigger] interfaces@[i]).iface@
            != loopback() by {
            assert(interface_views(interfaces@)[i].iface == interfaces@[i].iface@);
        }
    }
    interfaces
}

impl SysInterfaces {
    /// No interface is the loopback.
    pub open spec fn wf(&self) -> bool {
        forall|i: int|
            0 <= i < self.interfaces@.len() ==> (#[trigger] self.interfaces@[i]).iface@
                != loopback()
    }

    /// The directory below `root` that holds one directory per interface.
    pub fn root_path(root: &Option<String>) -> (path: String)
        ensures
            path@ == sys_root(opt_view(*root)),
    {
        let base = base_root_path(root);
        join_path(base.as_str(), "sys/class/net")
    }

    /// The live interfaces of the machine under `root` whose files hold what
    /// `readings` says: `readings` has one entry for each name that is looked
    /// at, which is `interface` where it is given and else every name of
    /// `listing`.
    pub fn new(
        root: &Option<String>,
        interface: &Option<String>,
        noop: bool,
        listing: &Vec<String>,
        readings: &Vec<Readings>,
    ) -> (found: SysInterfaces)
        ensures
            found.wf(),
            found@.root == sys_root(opt_view(*root)),
            found@.interfaces == live_interfaces(
                candidate_names(opt_view(*interface), string_views(listing@)),
                noop,
                readings_views(readings@),
            ),
    {
        let root_path = SysInterfaces::root_path(root);
        let names = candidates(interface, listing);
        let interfaces = get_interfaces(root_path.as_str(), names, noop, readings);
        SysInterfaces { root: root_path, interfaces }
    }

    /// The scan that finds the live interfaces of the machine under `root`,
    /// step by step.
    pub fn scan(
        root: &Option<String>,
        interface: &Option<String>,
        noop: bool,
        listing: &Vec<String>,
    ) -> (scan: Scan)
        ensures
            scan.wf(),
            scan@ == started(
                sys_root(opt_view(*root)),
                candidate_names(opt_view(*interface), string_views(listing@)),
                noop,
            ),
    {
        Scan::new(SysInterfaces::root_path(root), candidates(interface, listing), noop)
    }

    /// What a scan has found.
    pub fn scanned(scan: Scan) -> (found: SysInterfaces)
        ensures
            scan.wf(),
            found.wf(),
            found@.root == scan@.root_path,
            found@.interfaces == scan@.interfaces,
    {
        let root = scan.root_path();
        let interfaces = scan.into_interfaces();
        SysInterfaces { root, interfaces }
    }
}

impl Clone for SysInterfaces {
    fn clone(&self) -> (copy: SysInterfaces)
        ensures
            copy@ == self@,
    {
        let mut interfaces: Vec<Interface> = Vec::new();
        let mut i: usize = 0;
        while i < self.interfaces.len()
            invariant
                i <= self.interfaces@.len(),
                interfaces@.len() == i,
                forall|k: int| 0 <= k < i ==> interfaces@[k]@ == self.interfaces@[k]@,
            decreases self.interfaces@.len() - i,
        {
            interfaces.push(self.interfaces[i].clone());
            i = i + 1;
        }
        proof {
            assert(interface_views(interfaces@) =~= interface_views(self.interfaces@));
        }
        SysInterfaces { root: self.root.clone(), interfaces }
    }
}

} // verus!
