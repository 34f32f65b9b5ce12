//! The live interfaces joined with the metadata: how each one is to be
//! configured, and the configuration files that are still to be written.

use vstd::prelude::*;
use crate::config_drive::network_info::{
    interface_index, lemma_index_holds_linked, NetworkInfoView, NetworkView,
};
use crate::config_drive::ConfigDrive;
use crate::live_networks::interface_type::{
    assignment_views, insert_position, inserted, key_of, lemma_sorted_assignments,
    sorted_assignments, sorted_by_key, InterfaceType, InterfaceTypeView,
};
use crate::live_networks::writer::{
    file_views, get_output_files, output_files, probe_on, DebianWriter, ExistenceProbe,
    FileToWrite, FileToWriteView, Platform, RedHatWriter, Writer,
};
use crate::sys::interface::{Interface, InterfaceView};
use crate::sys::SysInterfaces;
use crate::text::{
    base_root, base_root_path, comes_before, join_path, joined, lowercase, opt_view, to_lowercase,
};

pub mod interface_type;
pub mod writer;

verus! {

/// The platform of a machine: Debian where the directory `etc/network`
/// exists, Red Hat where it does not.
pub open spec fn platform_of(marker_is_dir: bool) -> Platform {
    if marker_is_dir {
        Platform::Debian
    } else {
        Platform::RedHat
    }
}

/// The path of the directory whose presence tells the platform.
pub open spec fn marker_path(root: Option<Seq<char>>) -> Seq<char> {
    joined(base_root(root), "etc/network"@)
}

/// The network that `index` holds for the hardware address `address`,
/// whatever the case of its letters; nothing where it holds none or there is
/// no index.
pub open spec fn matched(address: Seq<char>, index: Option<Map<Seq<char>, NetworkView>>) -> Option<
    NetworkView,
> {
    match index {
        Some(map) => if map.contains_key(lowercase(address)) {
            Some(map[lowercase(address)])
        } else {
            None
        },
        None => None,
    }
}

/// How `interface` is to be configured: with the network that is matched to
/// its hardware address, under the name and the address of the interface
/// itself; dynamically where none is matched.
pub open spec fn assignment(
    interface: InterfaceView,
    index: Option<Map<Seq<char>, NetworkView>>,
) -> InterfaceTypeView {
    match matched(interface.address, index) {
        Some(network) => InterfaceTypeView::Static(
            NetworkView { id: interface.iface, link: interface.address, ..network },
        ),
        None => InterfaceTypeView::Dhcp(interface.iface),
    }
}

/// The assignments of `interfaces`, in their order.
pub open spec fn assignments(
    interfaces: Seq<InterfaceView>,
    index: Option<Map<Seq<char>, NetworkView>>,
) -> Seq<InterfaceTypeView> {
    Seq::new(interfaces.len(), |i: int| assignment(interfaces[i], index))
}

/// The assignments of `interfaces`, sorted by the name of the interface.
pub open spec fn reconciled(
    interfaces: Seq<InterfaceView>,
    index: Option<Map<Seq<char>, NetworkView>>,
) -> Seq<InterfaceTypeView> {
    sorted_assignments(assignments(interfaces, index))
}

/// The index of a drive, where there is one.
pub open spec fn index_of(drive: Option<ConfigDrive>) -> Option<Map<Seq<char>, NetworkView>> {
    match drive {
        Some(d) => Some(d.interface_map@),
        None => None,
    }
}

/// The reconciled assignments are sorted and hold the assignment of each
/// interface as often as it occurs.
pub proof fn lemma_reconciled(
    interfaces: Seq<InterfaceView>,
    index: Option<Map<Seq<char>, NetworkView>>,
)
    ensures
        sorted_by_key(reconciled(interfaces, index)),
        reconciled(interfaces, index).to_multiset() == assignments(interfaces, index).to_multiset(),
        reconciled(interfaces, index).len() == interfaces.len(),
{
    lemma_sorted_assignments(assignments(interfaces, index));
}

/// Whether an assignment is dynamic.
pub open spec fn is_dhcp(assignment: InterfaceTypeView) -> bool {
    assignment is Dhcp
}

/// Without metadata every interface is configured dynamically, under its own
/// name.
pub proof fn lemma_fallback_is_dhcp(interfaces: Seq<InterfaceView>)
    ensures
        forall|i: int|
            0 <= i < interfaces.len() ==> (#[trigger] assignments(interfaces, None)[i])
                == InterfaceTypeView::Dhcp(interfaces[i].iface),
        forall|i: int|
            0 <= i < reconciled(interfaces, None).len() ==> is_dhcp(
                #[trigger] reconciled(interfaces, None)[i],
            ),
{
    let plain = assignments(interfaces, None);
    let sorted = reconciled(interfaces, None);
    lemma_sorted_assignments(plain);
    assert forall|i: int| 0 <= i < sorted.len() implies is_dhcp(#[trigger] sorted[i]) by {
        sorted.to_multiset_ensures();
        plain.to_multiset_ensures();
        assert(sorted.contains(sorted[i]));
        assert(sorted.to_multiset().count(sorted[i]) > 0);
        assert(plain.to_multiset().count(sorted[i]) > 0);
        assert(plain.contains(sorted[i]));
        let k = choose|k: int| 0 <= k < plain.len() && plain[k] == sorted[i];
        assert(plain[k] == InterfaceTypeView::Dhcp(interfaces[k].iface));
    }
}

/// A hardware address is matched whatever the case of its letters: two
/// addresses with the same lower-case form are matched to the same network.
pub proof fn lemma_match_ignores_case(
    first: Seq<char>,
    second: Seq<char>,
    index: Option<Map<Seq<char>, NetworkView>>,
)
    requires
        lowercase(first) == lowercase(second),
    ensures
        matched(first, index) == matched(second, index),
{
}

/// Whether an assignment carries a network of the metadata.
pub open spec fn is_static(assignment: InterfaceTypeView) -> bool {
    assignment is Static
}

/// An interface whose hardware address is that of a link, whatever the case
/// of the letters on either side, is given a network of the metadata as soon
/// as one names that link; it keeps its own name and its own spelling of the
/// address.
pub proof fn lemma_linked_interface_is_static(
    info: NetworkInfoView,
    interface: InterfaceView,
    i: int,
    j: int,
)
    requires
        0 <= i < info.links.len(),
        0 <= j < info.networks.len(),
        info.networks[j].link == info.links[i].id,
        lowercase(interface.address) == lowercase(info.links[i].ethernet_mac_address),
    ensures
        is_static(assignment(interface, Some(interface_index(info)))),
        key_of(assignment(interface, Some(interface_index(info)))) == interface.iface,
        assignment(interface, Some(interface_index(info)))->Static_0.link == interface.address,
{
    lemma_index_holds_linked(info.links, info.networks, false, i, j);
}

/// The live interfaces of a machine, each with its assignment, sorted by
/// name; the platform; and the root that paths are resolved against.
#[derive(Debug)]
pub struct LiveNetworks {
    pub interfaces: Vec<InterfaceType>,
    pub platform: Platform,
    pub root: String,
}

/// A `LiveNetworks` as the contracts speak of it.
pub struct LiveNetworksView {
    pub interfaces: Seq<InterfaceTypeView>,
    pub platform: Platform,
    pub root: Seq<char>,
}

impl View for LiveNetworks {
    type V = LiveNetworksView;

    open spec fn view(&self) -> LiveNetworksView {
        LiveNetworksView {
            interfaces: assignment_views(self.interfaces@),
            platform: self.platform,
            root: self.root@,
        }
    }
}

/// The configuration files that are written for a run.
#[derive(Debug)]
pub struct FileList {
    pub files: Vec<FileToWrite>,
}

impl View for FileList {
    type V = Seq<FileToWriteView>;

    open spec fn view(&self) -> Seq<FileToWriteView> {
        file_views(self.files@)
    }
}

/// Puts `assignment` in its place in the sorted `list`.
fn insert_sorted(list: &mut Vec<InterfaceType>, assignment: InterfaceType)
    ensures
        assignment_views(final(list)@) == inserted(assignment_views(old(list)@), assignment@),
{
    let ghost before = assignment_views(list@);
    let mut at: usize = 0;
    proof {
        assert(before.skip(0) == before);
    }
    while at < list.len() && !comes_before(assignment.key().as_str(), list[at].key().as_str())
        invariant
            at <= list@.len(),
            before == assignment_views(list@),
            insert_position(before, assignment@) == at + insert_position(
                before.skip(at as int),
                assignment@,
            ),
        decreases list@.len() - at,
    {
        proof {
            assert(before.skip(at as int).drop_first() == before.skip(at + 1));
            assert(before.skip(at as int)[0] == list@[at as int]@);
        }
        at = at + 1;
    }
    proof {
        if at < list@.len() {
            assert(before.skip(at as int)[0] == list@[at as int]@);
        }
    }
    list.insert(at, assignment);
    proof {
        assert(assignment_views(list@) =~= before.insert(at as int, assignment@));
    }
}

impl LiveNetworks {
    /// The path of the directory whose presence tells the platform.
    pub fn marker(root: &Option<String>) -> (path: String)
        ensures
            path@ == marker_path(opt_view(*root)),
    {
        let base = base_root_path(root);
        join_path(base.as_str(), "etc/network")
    }

    /// The assignment of one interface.
    fn assign(interface: &Interface, drive: &Option<ConfigDrive>) -> (assigned: InterfaceType)
        ensures
            assigned@ == assignment(interface@, index_of(*drive)),
    {
        match drive {
            Some(d) => {
                let key = to_lowercase(interface.address.as_str());
                match d.interface_map.get(&key) {
                    Some(network) => {
                        let mut new_net = network.clone();
                        new_net.id = interface.iface.clone();
                        new_net.link = interface.address.clone();
                        InterfaceType::Static(new_net)
                    },
                    None => InterfaceType::Dhcp(interface.iface.clone()),
                }
            },
            None => InterfaceType::Dhcp(interface.iface.clone()),
        }
    }

    /// Joins the live interfaces with the metadata. `marker_is_dir` says
    /// whether the directory at `marker(root)` exists.
    pub fn new(
        interfaces: &SysInterfaces,
        config_drive: Option<ConfigDrive>,
        root: &Option<String>,
        marker_is_dir: bool,
    ) -> (live: LiveNetworks)
        ensures
            live@.interfaces == reconciled(interfaces@.interfaces, index_of(config_drive)),
            sorted_by_key(live@.interfaces),
            live@.platform == platform_of(marker_is_dir),
            live@.root == base_root(opt_view(*root)),
    {
        let ghost found = interfaces@.interfaces;
        let ghost index = index_of(config_drive);
        let ghost all = assignments(found, index);
        let mut live_ifaces: Vec<InterfaceType> = Vec::new();
        let mut i: usize = 0;
        proof {
            assert(assignment_views(live_ifaces@) =~= sorted_assignments(all.take(0)));
        }
        while i < interfaces.interfaces.len()
            invariant
                i <= interfaces.interfaces@.len(),
                found == interfaces@.interfaces,
                index == index_of(config_drive),
                all == assignments(found, index),
                assignment_views(live_ifaces@) == sorted_assignments(all.take(i as int)),
            decreases interfaces.interfaces@.len() - i,
        {
            let assigned = LiveNetworks::assign(&interfaces.interfaces[i], &config_drive);
            proof {
                assert(all.take(i + 1).drop_last() == all.take(i as int));
                assert(all.take(i + 1).last() == assigned@);
            }
            insert_sorted(&mut live_ifaces, assigned);
            i = i + 1;
        }
        proof {
            assert(all.take(all.len() as int) == all);
            lemma_sorted_assignments(all);
        }
        let platform = if marker_is_dir {
            Platform::Debian
        } else {
            Platform::RedHat
        };
        LiveNetworks { interfaces: live_ifaces, platform, root: base_root_path(root) }
    }

    /// How to find out, for each interface in order, whether it has a
    /// configuration already.
    pub fn probes(&self) -> (probes: Vec<ExistenceProbe>)
        ensures
            probes@.len() == self@.interfaces.len(),
            forall|i: int|
                0 <= i < probes@.len() ==> (#[trigger] probes@[i])@ == probe_on(
                    self@.platform,
                    self@.root,
                    key_of(self@.interfaces[i]),
                ),
    {
        let mut probes: Vec<ExistenceProbe> = Vec::new();
        let mut i: usize = 0;
        while i < self.interfaces.len()
            invariant
                i <= self.interfaces@.len(),
                probes@.len() == i,
                forall|k: int|
                    0 <= k < i ==> (#[trigger] probes@[k])@ == probe_on(
                        self@.platform,
                        self@.root,
                        key_of(self@.interfaces[k]),
                    ),
            decreases self.interfaces@.len() - i,
        {
            let iface = self.interfaces[i].key();
            let probe = match self.platform {
                Platform::RedHat => RedHatWriter { root: self.root.clone() }.probe(iface),
                Platform::Debian => DebianWriter { root: self.root.clone() }.probe(iface),
            };
            probes.push(probe);
            i = i + 1;
        }
        probes
    }

    /// The configuration files of the interfaces that have none yet.
    /// `observed` holds for each interface, in order, what its probe found:
    /// whether the configuration is there, or `None` where the probe failed.
    pub fn get_output(&self, observed: &Vec<Option<bool>>) -> (list: FileList)
        ensures
            list@ == output_files(self@.platform, self@.root, self@.interfaces, observed@),
    {
        match self.platform {
            Platform::RedHat => {
                let w = RedHatWriter { root: self.root.clone() };
                get_output_files(&w, &self.interfaces, observed)
            },
            Platform::Debian => {
                let w = DebianWriter { root: self.root.clone() };
                get_output_files(&w, &self.interfaces, observed)
            },
        }
    }
}

} // verus!
