//! The writers of the two platforms: where the configuration of an interface
//! lies, how to tell whether it is there, and what it holds.

use vstd::prelude::*;
use crate::config_drive::network_info::{NetworkView, Route, RouteView, route_views};
use crate::live_networks::interface_type::{
    assignment_views, key_of, InterfaceType, InterfaceTypeView,
};
use crate::live_networks::FileList;
use crate::text::{join_path, joined, same_text};

verus! {

/// A file that is still to be written.
#[derive(Debug)]
pub struct FileToWrite {
    pub path: String,
    pub content: String,
}

/// A `FileToWrite` as the contracts speak of it.
pub struct FileToWriteView {
    pub path: Seq<char>,
    pub content: Seq<char>,
}

impl View for FileToWrite {
    type V = FileToWriteView;

    open spec fn view(&self) -> FileToWriteView {
        FileToWriteView { path: self.path@, content: self.content@ }
    }
}

/// The views of a run of files.
pub open spec fn file_views(files: Seq<FileToWrite>) -> Seq<FileToWriteView> {
    Seq::new(files.len(), |i: int| files[i]@)
}

/// How to find out whether an interface has a configuration.
#[derive(Debug)]
pub enum ExistenceProbe {
    /// It has one if a regular file lies at this path.
    IsFile(String),
    /// It has one if the program, run with the argument, ends with success.
    Succeeds { program: String, argument: String },
}

/// An `ExistenceProbe` as the contracts speak of it.
pub enum ExistenceProbeView {
    IsFile(Seq<char>),
    Succeeds { program: Seq<char>, argument: Seq<char> },
}

impl View for ExistenceProbe {
    type V = ExistenceProbeView;

    open spec fn view(&self) -> ExistenceProbeView {
        match self {
            ExistenceProbe::IsFile(path) => ExistenceProbeView::IsFile(path@),
            ExistenceProbe::Succeeds { program, argument } => ExistenceProbeView::Succeeds {
                program: program@,
                argument: argument@,
            },
        }
    }
}

/// The family of distributions that configuration is written for.
#[derive(Clone, Copy, Debug, PartialEq, Eq, Structural)]
pub enum Platform {
    RedHat,
    Debian,
}

/// Whether a probe found a configuration: a probe that failed found none.
pub open spec fn found(observed: Option<bool>) -> bool {
    observed == Some(true)
}

/// What a platform knows of the configuration of an interface.
pub trait Writer {
    /// The platform that the writer writes for.
    spec fn platform(&self) -> Platform;

    /// The root that the writer resolves its paths against.
    spec fn target_root(&self) -> Seq<char>;

    /// The path of the configuration of the interface `iface`.
    fn interface_file(&self, iface: &String) -> (path: String)
        ensures
            path@ == file_on(self.platform(), self.target_root(), iface@),
    ;

    /// How to find out whether `iface` has a configuration.
    fn probe(&self, iface: &String) -> (probe: ExistenceProbe)
        ensures
            probe@ == probe_on(self.platform(), self.target_root(), iface@),
    ;

    /// Whether `iface` has a configuration, given what its probe found.
    fn config_exists(&self, iface: &String, observed: Option<bool>) -> (exists: bool)
        ensures
            exists == found(observed),
    ;

    /// The configuration of `iface` under the assignment `interface`.
    fn generate_config(&self, iface: &String, interface: &InterfaceType) -> (file: FileToWrite)
        ensures
            file@.path == file_on(self.platform(), self.target_root(), iface@),
            file@.content == content_on(self.platform(), iface@, interface@),
    ;
}

/// The writer for Red Hat and its relatives.
pub struct RedHatWriter {
    pub root: String,
}

/// The writer for Debian and its relatives.
pub struct DebianWriter {
    pub root: String,
}

/// A default route leads everywhere.
pub open spec fn is_default_route(route: RouteView) -> bool {
    route.network == "0.0.0.0"@ && route.netmask == "0.0.0.0"@
}

/// The configuration file of Red Hat for an interface.
pub open spec fn redhat_file(root: Seq<char>, iface: Seq<char>) -> Seq<char> {
    joined(root, "etc/sysconfig/network-scripts/ifcfg-"@ + iface)
}

/// What the configuration file of Red Hat holds.
pub open spec fn redhat_content(iface: Seq<char>, interface: InterfaceTypeView) -> Seq<char> {
    match interface {
        InterfaceTypeView::Dhcp(_) => "# Generated by glean\nDEVICE="@ + iface
            + "\nBOOTPROTO=dhcp\nONBOOT=yes\nNM_CONTROLLED=no\nTYPE=Ethernet"@,
        InterfaceTypeView::Static(network) => "# Generated by glean\nDEVICE="@ + iface
            + "\nBOOTPROTO=static\nHWADDR="@ + network.link + "\nIPADDR="@ + network.ip_address
            + "\nNETMASK="@ + network.netmask + "\nONBOOT=yes\nNM_CONTROLLED=no"@,
    }
}

/// The configuration file of Debian for an interface.
pub open spec fn debian_file(root: Seq<char>, iface: Seq<char>) -> Seq<char> {
    joined(joined(root, "etc/network/interfaces.d"@), iface)
}

/// The address family of a network in a Debian stanza.
pub open spec fn link_type(network: NetworkView) -> Seq<char> {
    if network.network_type == "ipv6"@ {
        "inet6"@
    } else {
        "inet"@
    }
}

/// The lines of one route in a Debian stanza: a gateway for the default
/// route, and for any other a pair of commands.
pub open spec fn route_lines(route: RouteView) -> Seq<char> {
    if is_default_route(route) {
        "\n    gateway "@ + route.gateway
    } else {
        "\n    post-up route add -net "@ + route.network + " netmask "@ + route.netmask
            + " gw "@ + route.gateway + " || true\n"@ + "\n    pre-down route add -net "@
            + route.network + " netmask "@ + route.netmask + " gw "@ + route.gateway
            + " || true\n"@
    }
}

/// The lines of the routes of a network, in their order.
pub open spec fn routes_lines(routes: Seq<RouteView>) -> Seq<char>
    decreases routes.len(),
{
    if routes.len() == 0 {
        Seq::empty()
    } else {
        routes_lines(routes.drop_last()) + route_lines(routes.last())
    }
}

/// What the configuration file of Debian holds.
pub open spec fn debian_content(iface: Seq<char>, interface: InterfaceTypeView) -> Seq<char> {
    match interface {
        InterfaceTypeView::Dhcp(_) => "# Generated by glean\nauto "@ + iface + "\niface "@ + iface
            + " inet dhcp"@,
        InterfaceTypeView::Static(network) => "# Generated by glean\nauto "@ + iface + "\niface "@
            + iface + " "@ + link_type(network) + " static\n    address "@ + network.ip_address
            + "\n    netmask "@ + network.netmask + routes_lines(network.routes),
    }
}

/// The path of the configuration of the interface `iface` on `platform`,
/// below `root`.
pub open spec fn file_on(platform: Platform, root: Seq<char>, iface: Seq<char>) -> Seq<char> {
    match platform {
        Platform::RedHat => redhat_file(root, iface),
        Platform::Debian => debian_file(root, iface),
    }
}

/// How the configuration of `iface` is looked for on `platform`: on Red Hat
/// as a regular file at its path, on Debian by asking `ifquery`.
pub open spec fn probe_on(platform: Platform, root: Seq<char>, iface: Seq<char>) -> ExistenceProbeView {
    match platform {
        Platform::RedHat => ExistenceProbeView::IsFile(redhat_file(root, iface)),
        Platform::Debian => ExistenceProbeView::Succeeds { program: "ifquery"@, argument: iface },
    }
}

/// What the configuration of `iface` holds on `platform`.
pub open spec fn content_on(platform: Platform, iface: Seq<char>, interface: InterfaceTypeView) -> Seq<
    char,
> {
    match platform {
        Platform::RedHat => redhat_content(iface, interface),
        Platform::Debian => debian_content(iface, interface),
    }
}

impl Writer for RedHatWriter {
    open spec fn platform(&self) -> Platform {
        Platform::RedHat
    }

    open spec fn target_root(&self) -> Seq<char> {
        self.root@
    }

    fn interface_file(&self, iface: &String) -> (path: String) {
        let mut path_str = String::from_str("etc/sysconfig/network-scripts/ifcfg-");
        path_str.append(iface.as_str());
        join_path(self.root.as_str(), path_str.as_str())
    }

    fn probe(&self, iface: &String) -> (probe: ExistenceProbe) {
        ExistenceProbe::IsFile(self.interface_file(iface))
    }

    fn config_exists(&self, iface: &String, observed: Option<bool>) -> (exists: bool) {
        match observed {
            Some(is_file) => is_file,
            None => false,
        }
    }

    fn generate_config(&self, iface: &String, interface: &InterfaceType) -> (file: FileToWrite) {
        let filename = self.interface_file(iface);
        let mut content = String::from_str("# Generated by glean\nDEVICE=");
        content.append(iface.as_str());
        match interface {
            InterfaceType::Dhcp(_) => {
                content.append("\nBOOTPROTO=dhcp\nONBOOT=yes\nNM_CONTROLLED=no\nTYPE=Ethernet");
            },
            InterfaceType::Static(network) => {
                content.append("\nBOOTPROTO=static\nHWADDR=");
                content.append(network.link.as_str());
                content.append("\nIPADDR=");
                content.append(network.ip_address.as_str());
                content.append("\nNETMASK=");
                content.append(network.netmask.as_str());
                content.append("\nONBOOT=yes\nNM_CONTROLLED=no");
            },
        }
        FileToWrite { path: filename, content }
    }
}

/// Adds the lines of `route` to a Debian stanza.
fn append_route(content: &mut String, route: &Route)
    ensures
        final(content)@ == old(content)@ + route_lines(route@),
{
    let ghost before = content@;
    if same_text(route.network.as_str(), "0.0.0.0") && same_text(route.netmask.as_str(), "0.0.0.0") {
        content.append("\n    gateway ");
        content.append(route.gateway.as_str());
        proof {
            assert(content@ =~= before + route_lines(route@));
        }
    } else {
        content.append("\n    post-up route add -net ");
        content.append(route.network.as_str());
        content.append(" netmask ");
        content.append(route.netmask.as_str());
        content.append(" gw ");
        content.append(route.gateway.as_str());
        content.append(" || true\n");
        content.append("\n    pre-down route add -net ");
        content.append(route.network.as_str());
        content.append(" netmask ");
        content.append(route.netmask.as_str());
        content.append(" gw ");
        content.append(route.gateway.as_str());
        content.append(" || true\n");
        proof {
            assert(content@ =~= before + route_lines(route@));
        }
    }
}

impl Writer for DebianWriter {
    open spec fn platform(&self) -> Platform {
        Platform::Debian
    }

    open spec fn target_root(&self) -> Seq<char> {
        self.root@
    }

    fn interface_file(&self, iface: &String) -> (path: String) {
        let dir = join_path(self.root.as_str(), "etc/network/interfaces.d");
        join_path(dir.as_str(), iface.as_str())
    }

    fn probe(&self, iface: &String) -> (probe: ExistenceProbe) {
        ExistenceProbe::Succeeds { program: String::from_str("ifquery"), argument: iface.clone() }
    }

    fn config_exists(&self, iface: &String, observed: Option<bool>) -> (exists: bool) {
        match observed {
            Some(success) => success,
            None => false,
        }
    }

    fn generate_config(&self, iface: &String, interface: &InterfaceType) -> (file: FileToWrite) {
        let mut content = String::from_str("# Generated by glean\nauto ");
        content.append(iface.as_str());
        content.append("\niface ");
        content.append(iface.as_str());
        match interface {
            InterfaceType::Dhcp(_) => {
                content.append(" inet dhcp");
            },
            InterfaceType::Static(network) => {
                content.append(" ");
                if same_text(network.network_type.as_str(), "ipv6") {
                    content.append("inet6");
                } else {
                    content.append("inet");
                }
                content.append(" static\n    address ");
                content.append(network.ip_address.as_str());
                content.append("\n    netmask ");
                content.append(network.netmask.as_str());
                let ghost head = content@;
                let ghost routes = route_views(network.routes@);
                let mut i: usize = 0;
                proof {
                    assert(routes.take(0) =~= Seq::<RouteView>::empty());
                    assert(content@ =~= head + routes_lines(routes.take(0)));
                }
                while i < network.routes.len()
                    invariant
                        i <= network.routes@.len(),
                        routes == route_views(network.routes@),
                        content@ == head + routes_lines(routes.take(i as int)),
                    decreases network.routes@.len() - i,
                {
                    proof {
                        assert(routes.take(i + 1).drop_last() == routes.take(i as int));
                        assert(routes.take(i + 1).last() == network.routes@[i as int]@);
                    }
                    append_route(&mut content, &network.routes[i]);
                    proof {
                        assert(content@ =~= head + routes_lines(routes.take(i + 1)));
                    }
                    i = i + 1;
                }
                proof {
                    assert(routes.take(routes.len() as int) == routes);
                }
            },
        }
        FileToWrite { path: self.interface_file(iface), content }
    }
}

/// The file that is made on `platform` for `interface`.
pub open spec fn config_of(platform: Platform, root: Seq<char>, interface: InterfaceTypeView) -> FileToWriteView {
    FileToWriteView {
        path: file_on(platform, root, key_of(interface)),
        content: content_on(platform, key_of(interface), interface),
    }
}

/// What the probe of the interface at `position` found. An interface
/// without an entry counts as one whose probe failed.
pub open spec fn observed_at(observed: Seq<Option<bool>>, position: int) -> Option<bool> {
    if 0 <= position < observed.len() {
        observed[position]
    } else {
        None
    }
}

/// The files that are made on `platform` for `interfaces`: in their order,
/// one for each interface whose probe found no configuration.
pub open spec fn output_files(
    platform: Platform,
    root: Seq<char>,
    interfaces: Seq<InterfaceTypeView>,
    observed: Seq<Option<bool>>,
) -> Seq<FileToWriteView>
    decreases interfaces.len(),
{
    if interfaces.len() == 0 {
        Seq::empty()
    } else {
        let before = output_files(platform, root, interfaces.drop_last(), observed);
        if found(observed_at(observed, interfaces.len() - 1)) {
            before
        } else {
            before.push(config_of(platform, root, interfaces.last()))
        }
    }
}

/// No file is made for an interface that has a configuration: every file of
/// the output belongs to an interface whose probe found none.
pub proof fn lemma_existing_is_skipped(
    platform: Platform,
    root: Seq<char>,
    interfaces: Seq<InterfaceTypeView>,
    observed: Seq<Option<bool>>,
)
    ensures
        output_files(platform, root, interfaces, observed).len() <= interfaces.len(),
        forall|k: int|
            0 <= k < output_files(platform, root, interfaces, observed).len() ==> exists|i: int|
                0 <= i < interfaces.len() && !found(observed_at(observed, i)) && (
                #[trigger] output_files(platform, root, interfaces, observed)[k]) == config_of(
                    platform,
                    root,
                    #[trigger] interfaces[i],
                ),
        (forall|i: int| 0 <= i < interfaces.len() ==> found(#[trigger] observed_at(observed, i)))
            ==> output_files(platform, root, interfaces, observed).len() == 0,
    decreases interfaces.len(),
{
    if interfaces.len() > 0 {
        let front = interfaces.drop_last();
        let last = interfaces.len() - 1;
        lemma_existing_is_skipped(platform, root, front, observed);
        let before = output_files(platform, root, front, observed);
        let all = output_files(platform, root, interfaces, observed);
        assert forall|k: int| 0 <= k < all.len() implies exists|i: int|
            0 <= i < interfaces.len() && !found(observed_at(observed, i)) && (#[trigger] all[k])
                == config_of(platform, root, #[trigger] interfaces[i]) by {
            if k < before.len() {
                let i = choose|i: int|
                    0 <= i < front.len() && !found(observed_at(observed, i)) && before[k]
                        == config_of(platform, root, #[trigger] front[i]);
                assert(interfaces[i] == front[i]);
                assert(all[k] == before[k]);
            } else {
                assert(all[k] == config_of(platform, root, interfaces[last]));
            }
        }
        if forall|i: int| 0 <= i < interfaces.len() ==> found(#[trigger] observed_at(observed, i)) {
            assert(found(observed_at(observed, last)));
            assert forall|i: int| 0 <= i < front.len() implies found(
                #[trigger] observed_at(observed, i),
            ) by {}
        }
    }
}

/// Two strings behind the same start differ as the strings do.
pub proof fn lemma_same_start(start: Seq<char>, first: Seq<char>, second: Seq<char>)
    requires
        start + first == start + second,
    ensures
        first == second,
{
    assert(first =~= (start + first).subrange(start.len() as int, (start + first).len() as int));
    assert(second =~= (start + second).subrange(
        start.len() as int,
        (start + second).len() as int,
    ));
}

/// Whether a path starts at the root.
pub open spec fn is_absolute(path: Seq<char>) -> bool {
    path.len() > 0 && path[0] == '/'
}

/// Two different paths that do not start at the root stay different when
/// they are resolved against the same directory.
pub proof fn lemma_joined_differs(base: Seq<char>, first: Seq<char>, second: Seq<char>)
    requires
        first != second,
        !is_absolute(first),
        !is_absolute(second),
    ensures
        joined(base, first) != joined(base, second),
{
    if joined(base, first) == joined(base, second) {
        if base.len() == 0 || base.last() == '/' {
            lemma_same_start(base, first, second);
        } else {
            lemma_same_start(base + seq!['/'], first, second);
        }
    }
}

/// The configurations of two interfaces of different names lie at different
/// paths. On Debian this holds of names that do not start with `/`: a name
/// that does is taken as the path itself, which may be the path of another
/// interface.
pub proof fn lemma_paths_differ(
    platform: Platform,
    root: Seq<char>,
    first: Seq<char>,
    second: Seq<char>,
)
    requires
        first != second,
        platform == Platform::Debian ==> !is_absolute(first) && !is_absolute(second),
    ensures
        file_on(platform, root, first) != file_on(platform, root, second),
{
    match platform {
        Platform::RedHat => {
            let prefix = "etc/sysconfig/network-scripts/ifcfg-"@;
            reveal_strlit("etc/sysconfig/network-scripts/ifcfg-");
            assert(prefix.len() > 0 && prefix[0] == 'e');
            assert((prefix + first)[0] == prefix[0]);
            assert((prefix + second)[0] == prefix[0]);
            if prefix + first == prefix + second {
                lemma_same_start(prefix, first, second);
            }
            lemma_joined_differs(root, prefix + first, prefix + second);
        },
        Platform::Debian => {
            lemma_joined_differs(joined(root, "etc/network/interfaces.d"@), first, second);
        },
    }
}

/// No file is made at the path of a configuration that is there: where the
/// probe of every interface named `name` found its configuration, no file of
/// the output lies at the path of that configuration. On Debian this holds
/// of names that do not start with `/`.
pub proof fn lemma_existing_path_is_not_emitted(
    platform: Platform,
    root: Seq<char>,
    interfaces: Seq<InterfaceTypeView>,
    observed: Seq<Option<bool>>,
    name: Seq<char>,
)
    requires
        forall|i: int|
            0 <= i < interfaces.len() && key_of(#[trigger] interfaces[i]) == name ==> found(
                observed_at(observed, i),
            ),
        platform == Platform::Debian ==> !is_absolute(name),
        platform == Platform::Debian ==> forall|i: int|
            0 <= i < interfaces.len() ==> !is_absolute(key_of(#[trigger] interfaces[i])),
    ensures
        forall|k: int|
            0 <= k < output_files(platform, root, interfaces, observed).len() ==> (
            #[trigger] output_files(platform, root, interfaces, observed)[k]).path != file_on(
                platform,
                root,
                name,
            ),
{
    let output = output_files(platform, root, interfaces, observed);
    lemma_existing_is_skipped(platform, root, interfaces, observed);
    assert forall|k: int| 0 <= k < output.len() implies (#[trigger] output[k]).path != file_on(
        platform,
        root,
        name,
    ) by {
        let i = choose|i: int|
            0 <= i < interfaces.len() && !found(observed_at(observed, i)) && output[k]
                == config_of(platform, root, #[trigger] interfaces[i]);
        assert(key_of(interfaces[i]) != name);
        lemma_paths_differ(platform, root, key_of(interfaces[i]), name);
    }
}

/// Makes the configuration of each interface that has none.
pub fn get_output_files<W: Writer>(
    writer: &W,
    interfaces: &Vec<InterfaceType>,
    observed: &Vec<Option<bool>>,
) -> (list: FileList)
    ensures
        list@ == output_files(
            writer.platform(),
            writer.target_root(),
            assignment_views(interfaces@),
            observed@,
        ),
{
    let mut file_list: Vec<FileToWrite> = Vec::new();
    let ghost all = assignment_views(interfaces@);
    let mut i: usize = 0;
    proof {
        assert(all.take(0) =~= Seq::<InterfaceTypeView>::empty());
        assert(file_views(file_list@) =~= output_files(
            writer.platform(),
            writer.target_root(),
            all.take(0),
            observed@,
        ));
    }
    while i < interfaces.len()
        invariant
            i <= interfaces@.len(),
            all == assignment_views(interfaces@),
            file_views(file_list@) == output_files(
                writer.platform(),
                writer.target_root(),
                all.take(i as int),
                observed@,
            ),
        decreases interfaces@.len() - i,
    {
        let interface = &interfaces[i];
        let iface = interface.get_key();
        let seen = if i < observed.len() {
            observed[i]
        } else {
            None
        };
        let ghost before = file_views(file_list@);
        proof {
            assert(all.take(i + 1).drop_last() == all.take(i as int));
            assert(all.take(i + 1).last() == interface@);
        }
        if !writer.config_exists(&iface, seen) {
            file_list.push(writer.generate_config(&iface, interface));
            proof {
                assert(file_views(file_list@) =~= before.push(
                    config_of(writer.platform(), writer.target_root(), interface@),
                ));
            }
        }
        i = i + 1;
    }
    proof {
        assert(all.take(all.len() as int) == all);
    }
    FileList { files: file_list }
}

} // verus!
