//! What a run that writes network configuration works on.

use vstd::prelude::*;
use crate::config_drive::{ConfigDrive, ConfigDriveView};
use crate::sys::{SysInterfaces, SysInterfacesView};
use crate::text::{base_root, base_root_path, opt_view, view_of};

verus! {

/// The inputs of a run: the metadata, if there is any, the live interfaces,
/// the root that paths are resolved against, and whether the run must leave
/// the machine as it is.
#[derive(Debug)]
pub struct NetworkWriter {
    pub config_drive: Option<ConfigDrive>,
    pub interfaces: SysInterfaces,
    pub root: String,
    pub noop: bool,
}

/// A `NetworkWriter` as the contracts speak of it.
pub struct NetworkWriterView {
    pub config_drive: Option<ConfigDriveView>,
    pub interfaces: SysInterfacesView,
    pub root: Seq<char>,
    pub noop: bool,
}

impl View for NetworkWriter {
    type V = NetworkWriterView;

    open spec fn view(&self) -> NetworkWriterView {
        NetworkWriterView {
            config_drive: view_of(self.config_drive),
            interfaces: self.interfaces@,
            root: self.root@,
            noop: self.noop,
        }
    }
}

impl NetworkWriter {
    /// Puts the inputs of a run together: the root is `/` where none is
    /// given, and the interfaces are a copy of `interfaces`.
    pub fn new(
        root: &Option<String>,
        interfaces: &SysInterfaces,
        config_drive: Option<ConfigDrive>,
        noop: bool,
    ) -> (writer: NetworkWriter)
        ensures
            writer@ == (NetworkWriterView {
                config_drive: view_of(config_drive),
                interfaces: interfaces@,
                root: base_root(opt_view(*root)),
                noop,
            }),
            writer.config_drive == config_drive,
    {
        NetworkWriter {
            config_drive,
            interfaces: interfaces.clone(),
            root: base_root_path(root),
            noop,
        }
    }
}

} // verus!
