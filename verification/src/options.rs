//! The options of a run.

use vstd::prelude::*;
use crate::text::opt_view;

verus! {

/// The options that a run was started with.
#[derive(Debug)]
pub struct Opt {
    pub help: bool,
    pub noop: bool,
    pub root: String,
    pub distro: Option<String>,
    pub interface: Option<String>,
    pub usage: String,
}

/// An `Opt` as the contracts speak of it.
pub struct OptView {
    pub help: bool,
    pub noop: bool,
    pub root: Seq<char>,
    pub distro: Option<Seq<char>>,
    pub interface: Option<Seq<char>>,
    pub usage: Seq<char>,
}

impl View for Opt {
    type V = OptView;

    open spec fn view(&self) -> OptView {
        OptView {
            help: self.help,
            noop: self.noop,
            root: self.root@,
            distro: opt_view(self.distro),
            interface: opt_view(self.interface),
            usage: self.usage@,
        }
    }
}

/// The root that metadata is looked for in where none is given.
pub open spec fn default_root() -> Seq<char> {
    "/mnt/config"@
}

impl Opt {
    /// The options of a run that was started with these flags: `root` and
    /// `interface` are what was given for them, if anything. The distribution
    /// is never overridden.
    pub fn new(
        help: bool,
        noop: bool,
        root: Option<String>,
        interface: Option<String>,
        usage: String,
    ) -> (opts: Opt)
        ensures
            opts@ == (OptView {
                help,
                noop,
                root: match root {
                    Some(path) => path@,
                    None => default_root(),
                },
                distro: None,
                interface: opt_view(interface),
                usage: usage@,
            }),
    {
        let root = match root {
            Some(path) => path,
            None => String::from_str("/mnt/config"),
        };
        Opt { help, noop, root, distro: None, interface, usage }
    }
}

} // verus!
