//! Reconciles the network metadata of a config drive with the network
//! interfaces a machine really has, and renders the persistent network
//! configuration of the interfaces that have none yet.

use vstd::prelude::*;
use crate::config_drive::interface_map::InterfaceMap;
use crate::config_drive::network_info::{
    build_index, index_links, network_info_of, vendor_data_of, NetworkInfo, NetworkInfoView,
    VendorData,
};
use crate::json::{parse, parsed};
use crate::text::{same_text, view_of};

pub mod config_drive;
pub mod json;
pub mod live_networks;
pub mod net_writer;
pub mod options;
pub mod sys;
pub mod text;

verus! {

/// The index from hardware address to network, with the ASCII capitals of
/// each address folded to lower case and every other character kept.
pub fn get_interface_map(netinfo: &NetworkInfo) -> (map: InterfaceMap)
    ensures
        map@ == index_links(netinfo@.links, netinfo@.networks, true),
{
    build_index(netinfo, true)
}

/// Why a metadata file could not be loaded.
#[derive(Clone, Copy, Debug, PartialEq, Eq, Structural)]
pub enum LoadError {
    /// The file is named as vendor data and does not decode as such.
    NotVendorData,
    /// The file is named as network metadata and does not decode as such.
    NotNetworkInfo,
}

/// What a metadata file named `file_name` that holds `content` yields:
/// `vendor_data.json` is read as vendor data and `network_info.json` as
/// network metadata, each an error where it does not decode; a file of
/// another name yields nothing.
pub open spec fn metadata_by_name(file_name: Seq<char>, content: Seq<char>) -> Result<
    Option<NetworkInfoView>,
    LoadError,
> {
    if file_name == "vendor_data.json"@ {
        match parsed(content) {
            Some(value) => match vendor_data_of(value) {
                Some(data) => Ok(Some(data.network_info)),
                None => Err(LoadError::NotVendorData),
            },
            None => Err(LoadError::NotVendorData),
        }
    } else if file_name == "network_info.json"@ {
        match parsed(content) {
            Some(value) => match network_info_of(value) {
                Some(info) => Ok(Some(info)),
                None => Err(LoadError::NotNetworkInfo),
            },
            None => Err(LoadError::NotNetworkInfo),
        }
    } else {
        Ok(None)
    }
}

/// The view of what a load yields.
pub open spec fn loaded_view(loaded: Result<Option<NetworkInfo>, LoadError>) -> Result<
    Option<NetworkInfoView>,
    LoadError,
> {
    match loaded {
        Ok(info) => Ok(view_of(info)),
        Err(e) => Err(e),
    }
}

/// Loads the metadata file named `file_name`, which holds `content`, in the
/// shape that its name tells.
pub fn get_network_info(file_name: &str, content: &str) -> (loaded: Result<
    Option<NetworkInfo>,
    LoadError,
>)
    ensures
        loaded_view(loaded) == metadata_by_name(file_name@, content@),
{
    if same_text(file_name, "vendor_data.json") {
        match parse(content) {
            Some(value) => match VendorData::from_json(&value) {
                Some(data) => Ok(Some(data.network_info)),
                None => Err(LoadError::NotVendorData),
            },
            None => Err(LoadError::NotVendorData),
        }
    } else if same_text(file_name, "network_info.json") {
        match parse(content) {
            Some(value) => match NetworkInfo::decode(&value) {
                Some(info) => Ok(Some(info)),
                None => Err(LoadError::NotNetworkInfo),
            },
            None => Err(LoadError::NotNetworkInfo),
        }
    } else {
        Ok(None)
    }
}

} // verus!
