//! The config drive of a machine: the metadata files it offers, and what is
//! kept of the first one that can be read.

use vstd::prelude::*;
use crate::config_drive::interface_map::InterfaceMap;
use crate::config_drive::network_info::{
    dns_of, interface_index, metadata_path, metadata_read, NetworkInfo,
    NetworkInfoView, NetworkView,
};
use crate::text::{opt_view, opt_views, string_views, view_of};

pub mod interface_map;
pub mod network_info;

verus! {

/// What a run keeps of the metadata: the index of the networks by hardware
/// address, and the name servers.
#[derive(Debug)]
pub struct ConfigDrive {
    pub interface_map: InterfaceMap,
    pub dns: Vec<String>,
}

/// A `ConfigDrive` as the contracts speak of it.
pub struct ConfigDriveView {
    pub interface_map: Map<Seq<char>, NetworkView>,
    pub dns: Seq<Seq<char>>,
}

impl View for ConfigDrive {
    type V = ConfigDriveView;

    open spec fn view(&self) -> ConfigDriveView {
        ConfigDriveView { interface_map: self.interface_map@, dns: string_views(self.dns@) }
    }
}

/// The metadata files of a config drive, below `mnt/config`, in the order in
/// which they are tried.
pub open spec fn candidate_paths() -> Seq<Seq<char>> {
    seq!["openstack/latest/network_info.json"@, "openstack/latest/vendor_data.json"@]
}

/// The metadata of the first of `contents` that holds any.
pub open spec fn first_metadata(contents: Seq<Option<Seq<char>>>) -> Option<NetworkInfoView>
    decreases contents.len(),
{
    if contents.len() == 0 {
        None
    } else {
        match metadata_read(contents[0]) {
            Some(info) => Some(info),
            None => first_metadata(contents.drop_first()),
        }
    }
}

/// What is kept of the metadata `info`.
pub open spec fn drive_of(info: NetworkInfoView) -> ConfigDriveView {
    ConfigDriveView { interface_map: interface_index(info), dns: dns_of(info.services) }
}

/// What is kept of the first of `contents` that holds metadata; nothing where
/// none does.
pub open spec fn drive_read(contents: Seq<Option<Seq<char>>>) -> Option<ConfigDriveView> {
    match first_metadata(contents) {
        Some(info) => Some(drive_of(info)),
        None => None,
    }
}

impl ConfigDrive {
    /// The paths of the metadata files of the machine under `root`, in the
    /// order in which they are tried.
    pub fn locations(root: &Option<String>) -> (paths: Vec<String>)
        ensures
            paths@.len() == candidate_paths().len(),
            forall|i: int|
                0 <= i < paths@.len() ==> (#[trigger] paths@[i])@ == metadata_path(
                    opt_view(*root),
                    candidate_paths()[i],
                ),
    {
        let mut paths: Vec<String> = Vec::new();
        paths.push(NetworkInfo::location(root, "openstack/latest/network_info.json"));
        paths.push(NetworkInfo::location(root, "openstack/latest/vendor_data.json"));
        paths
    }

    /// The drive of the first metadata file that holds metadata. `contents`
    /// is what was read from the files, in the order in which they are tried,
    /// with `None` for a file that could not be read.
    pub fn new(contents: &Vec<Option<String>>) -> (drive: Option<ConfigDrive>)
        ensures
            view_of(drive) == drive_read(opt_views(contents@)),
    {
        let ghost all = opt_views(contents@);
        let mut i: usize = 0;
        proof {
            assert(all.skip(0) == all);
        }
        while i < contents.len()
            invariant
                i <= contents@.len(),
                all == opt_views(contents@),
                first_metadata(all) == first_metadata(all.skip(i as int)),
            decreases contents@.len() - i,
        {
            proof {
                assert(all.skip(i as int).drop_first() == all.skip(i + 1));
                assert(all.skip(i as int)[0] == opt_view(contents@[i as int]));
            }
            match NetworkInfo::new(&contents[i]) {
                Some(info) => {
                    return Some(
                        ConfigDrive {
                            interface_map: info.get_interface_map(),
                            dns: info.get_dns(),
                        },
                    );
                },
                None => {},
            }
            i = i + 1;
        }
        None
    }
}

impl Clone for ConfigDrive {
    fn clone(&self) -> (copy: ConfigDrive)
        ensures
            copy@ == self@,
    {
        let mut dns: Vec<String> = Vec::new();
        let mut i: usize = 0;
        while i < self.dns.len()
            invariant
                i <= self.dns@.len(),
                dns@.len() == i,
                forall|k: int| 0 <= k < i ==> dns@[k]@ == self.dns@[k]@,
            decreases self.dns@.len() - i,
        {
            dns.push(self.dns[i].clone());
            i = i + 1;
        }
        proof {
            assert(string_views(dns@) =~= string_views(self.dns@));
        }
        ConfigDrive { interface_map: self.interface_map.clone(), dns }
    }
}

} // verus!
