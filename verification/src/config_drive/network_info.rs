//! The network metadata of a config drive: its records, how they are decoded
//! from a JSON document, and the index over them.

use vstd::prelude::*;
use crate::config_drive::interface_map::InterfaceMap;
use crate::json::{array_member, member, parse, parsed, text_member, JsonModel, JsonValue};
use crate::text::{
    ascii_lowercase, base_root, base_root_path, decimal_u16, join_path, joined, lowercase,
    opt_view, parse_u16, same_text, string_views, to_ascii_lowercase, to_lowercase, view_of,
};

verus! {

/// A service that the metadata announces.
#[derive(Debug)]
pub struct Service {
    pub service_type: String,
    pub address: String,
}

/// A `Service` as the contracts speak of it.
pub struct ServiceView {
    pub service_type: Seq<char>,
    pub address: Seq<char>,
}

impl View for Service {
    type V = ServiceView;

    open spec fn view(&self) -> ServiceView {
        ServiceView { service_type: self.service_type@, address: self.address@ }
    }
}

/// One route of a network.
#[derive(Debug)]
pub struct Route {
    pub netmask: String,
    pub network: String,
    pub gateway: String,
}

/// A `Route` as the contracts speak of it.
pub struct RouteView {
    pub netmask: Seq<char>,
    pub network: Seq<char>,
    pub gateway: Seq<char>,
}

impl View for Route {
    type V = RouteView;

    open spec fn view(&self) -> RouteView {
        RouteView { netmask: self.netmask@, network: self.network@, gateway: self.gateway@ }
    }
}

impl Clone for Route {
    fn clone(&self) -> (copy: Route)
        ensures
            copy@ == self@,
    {
        Route {
            netmask: self.netmask.clone(),
            network: self.network.clone(),
            gateway: self.gateway.clone(),
        }
    }
}

/// The views of a run of routes.
pub open spec fn route_views(routes: Seq<Route>) -> Seq<RouteView> {
    Seq::new(routes.len(), |i: int| routes[i]@)
}

/// A network that the metadata describes. `link` names the link it belongs
/// to.
#[derive(Debug)]
pub struct Network {
    pub network_id: String,
    pub network_type: String,
    pub netmask: String,
    pub link: String,
    pub routes: Vec<Route>,
    pub ip_address: String,
    pub id: String,
}

/// A `Network` as the contracts speak of it.
pub struct NetworkView {
    pub network_id: Seq<char>,
    pub network_type: Seq<char>,
    pub netmask: Seq<char>,
    pub link: Seq<char>,
    pub routes: Seq<RouteView>,
    pub ip_address: Seq<char>,
    pub id: Seq<char>,
}

impl View for Network {
    type V = NetworkView;

    open spec fn view(&self) -> NetworkView {
        NetworkView {
            network_id: self.network_id@,
            network_type: self.network_type@,
            netmask: self.netmask@,
            link: self.link@,
            routes: route_views(self.routes@),
            ip_address: self.ip_address@,
            id: self.id@,
        }
    }
}

/// A copy of `routes`.
pub fn clone_routes(routes: &Vec<Route>) -> (copy: Vec<Route>)
    ensures
        route_views(copy@) == route_views(routes@),
{
    let mut copy: Vec<Route> = Vec::new();
    let mut i: usize = 0;
    while i < routes.len()
        invariant
            i <= routes@.len(),
            copy@.len() == i,
            forall|k: int| 0 <= k < i ==> copy@[k]@ == routes@[k]@,
        decreases routes@.len() - i,
    {
        copy.push(routes[i].clone());
        i = i + 1;
    }
    proof {
        assert(route_views(copy@) =~= route_views(routes@));
    }
    copy
}

impl Clone for Network {
    fn clone(&self) -> (copy: Network)
        ensures
            copy@ == self@,
    {
        Network {
            network_id: self.network_id.clone(),
            network_type: self.network_type.clone(),
            netmask: self.netmask.clone(),
            link: self.link.clone(),
            routes: clone_routes(&self.routes),
            ip_address: self.ip_address.clone(),
            id: self.id.clone(),
        }
    }
}

/// The views of a run of networks.
pub open spec fn network_views(networks: Seq<Network>) -> Seq<NetworkView> {
    Seq::new(networks.len(), |i: int| networks[i]@)
}

/// A link that the metadata describes: a network device and its hardware
/// address.
#[derive(Debug)]
pub struct Link {
    pub ethernet_mac_address: String,
    pub mtu: u16,
    pub id: String,
    pub vif_id: String,
}

/// A `Link` as the contracts speak of it.
pub struct LinkView {
    pub ethernet_mac_address: Seq<char>,
    pub mtu: u16,
    pub id: Seq<char>,
    pub vif_id: Seq<char>,
}

impl View for Link {
    type V = LinkView;

    open spec fn view(&self) -> LinkView {
        LinkView {
            ethernet_mac_address: self.ethernet_mac_address@,
            mtu: self.mtu,
            id: self.id@,
            vif_id: self.vif_id@,
        }
    }
}

/// The views of a run of links.
pub open spec fn link_views(links: Seq<Link>) -> Seq<LinkView> {
    Seq::new(links.len(), |i: int| links[i]@)
}

/// The views of a run of services.
pub open spec fn service_views(services: Seq<Service>) -> Seq<ServiceView> {
    Seq::new(services.len(), |i: int| services[i]@)
}

/// The network metadata of one machine.
#[derive(Debug)]
pub struct NetworkInfo {
    pub services: Vec<Service>,
    pub networks: Vec<Network>,
    pub links: Vec<Link>,
}

/// A `NetworkInfo` as the contracts speak of it.
pub struct NetworkInfoView {
    pub services: Seq<ServiceView>,
    pub networks: Seq<NetworkView>,
    pub links: Seq<LinkView>,
}

impl View for NetworkInfo {
    type V = NetworkInfoView;

    open spec fn view(&self) -> NetworkInfoView {
        NetworkInfoView {
            services: service_views(self.services@),
            networks: network_views(self.networks@),
            links: link_views(self.links@),
        }
    }
}

/// Vendor data, which holds the network metadata as one of its members.
#[derive(Debug)]
pub struct VendorData {
    pub network_info: NetworkInfo,
}

/// A `VendorData` as the contracts speak of it.
pub struct VendorDataView {
    pub network_info: NetworkInfoView,
}

impl View for VendorData {
    type V = VendorDataView;

    open spec fn view(&self) -> VendorDataView {
        VendorDataView { network_info: self.network_info@ }
    }
}

/// The run of values behind a run of results, where none of them is missing.
pub open spec fn all_decoded<T>(items: Seq<Option<T>>) -> Option<Seq<T>> {
    if forall|i: int| 0 <= i < items.len() ==> (#[trigger] items[i]) is Some {
        Some(Seq::new(items.len(), |i: int| items[i]->0))
    } else {
        None
    }
}

/// A run of results that are all there decodes to the run of their values.
pub proof fn lemma_all_decoded<T>(items: Seq<Option<T>>, values: Seq<T>)
    requires
        items.len() == values.len(),
        forall|i: int| 0 <= i < items.len() ==> (#[trigger] items[i]) == Some(values[i]),
    ensures
        all_decoded(items) == Some(values),
{
    assert(all_decoded(items)->0 =~= values);
}

/// The service that an object with the string members `type` and `address`
/// describes.
pub open spec fn service_of(value: JsonModel) -> Option<ServiceView> {
    match (text_member(value, "type"@), text_member(value, "address"@)) {
        (Some(service_type), Some(address)) => Some(ServiceView { service_type, address }),
        _ => None,
    }
}

/// The route that an object with the string members `netmask`, `network` and
/// `gateway` describes.
pub open spec fn route_of(value: JsonModel) -> Option<RouteView> {
    match (
        text_member(value, "netmask"@),
        text_member(value, "network"@),
        text_member(value, "gateway"@),
    ) {
        (Some(netmask), Some(network), Some(gateway)) => Some(
            RouteView { netmask, network, gateway },
        ),
        _ => None,
    }
}

/// What each item of an array decodes to as a route.
pub open spec fn route_results(items: Seq<JsonModel>) -> Seq<Option<RouteView>> {
    Seq::new(items.len(), |i: int| route_of(items[i]))
}

/// The routes that an array of route objects describes.
pub open spec fn routes_of(items: Seq<JsonModel>) -> Option<Seq<RouteView>> {
    all_decoded(route_results(items))
}

/// The routes under the member `routes`.
pub open spec fn routes_member(value: JsonModel) -> Option<Seq<RouteView>> {
    match array_member(value, "routes"@) {
        Some(items) => routes_of(items),
        None => None,
    }
}

/// The network that an object describes: the string members `network_id`,
/// `type`, `netmask`, `link`, `ip_address` and `id`, and the array `routes`.
pub open spec fn network_of(value: JsonModel) -> Option<NetworkView> {
    match (
        text_member(value, "network_id"@),
        text_member(value, "type"@),
        text_member(value, "netmask"@),
        text_member(value, "link"@),
        routes_member(value),
        text_member(value, "ip_address"@),
        text_member(value, "id"@),
    ) {
        (
            Some(network_id),
            Some(network_type),
            Some(netmask),
            Some(link),
            Some(routes),
            Some(ip_address),
            Some(id),
        ) => Some(
            NetworkView { network_id, network_type, netmask, link, routes, ip_address, id },
        ),
        _ => None,
    }
}

/// The 16-bit number that a value stands for: a whole number in range, or a
/// string that reads as one.
pub open spec fn u16_of(value: JsonModel) -> Option<u16> {
    match value {
        JsonModel::Signed(n) => if 0 <= n <= u16::MAX {
            Some(n as u16)
        } else {
            None
        },
        JsonModel::Unsigned(n) => if n <= u16::MAX {
            Some(n as u16)
        } else {
            None
        },
        JsonModel::Text(text) => decimal_u16(text),
        _ => None,
    }
}

/// The number under the member `mtu`.
pub open spec fn mtu_member(value: JsonModel) -> Option<u16> {
    match member(value, "mtu"@) {
        Some(number) => u16_of(number),
        None => None,
    }
}

/// The link that an object describes: the string members
/// `ethernet_mac_address`, `id` and `vif_id`, and the number `mtu`.
pub open spec fn link_of(value: JsonModel) -> Option<LinkView> {
    match (
        text_member(value, "ethernet_mac_address"@),
        mtu_member(value),
        text_member(value, "id"@),
        text_member(value, "vif_id"@),
    ) {
        (Some(ethernet_mac_address), Some(mtu), Some(id), Some(vif_id)) => Some(
            LinkView { ethernet_mac_address, mtu, id, vif_id },
        ),
        _ => None,
    }
}

/// What each item of an array decodes to as a service.
pub open spec fn service_results(items: Seq<JsonModel>) -> Seq<Option<ServiceView>> {
    Seq::new(items.len(), |i: int| service_of(items[i]))
}

/// The services under the member `services`.
pub open spec fn services_member(value: JsonModel) -> Option<Seq<ServiceView>> {
    match array_member(value, "services"@) {
        Some(items) => all_decoded(service_results(items)),
        None => None,
    }
}

/// What each item of an array decodes to as a network.
pub open spec fn network_results(items: Seq<JsonModel>) -> Seq<Option<NetworkView>> {
    Seq::new(items.len(), |i: int| network_of(items[i]))
}

/// The networks under the member `networks`.
pub open spec fn networks_member(value: JsonModel) -> Option<Seq<NetworkView>> {
    match array_member(value, "networks"@) {
        Some(items) => all_decoded(network_results(items)),
        None => None,
    }
}

/// What each item of an array decodes to as a link.
pub open spec fn link_results(items: Seq<JsonModel>) -> Seq<Option<LinkView>> {
    Seq::new(items.len(), |i: int| link_of(items[i]))
}

/// The links under the member `links`.
pub open spec fn links_member(value: JsonModel) -> Option<Seq<LinkView>> {
    match array_member(value, "links"@) {
        Some(items) => all_decoded(link_results(items)),
        None => None,
    }
}

/// The metadata that an object with the arrays `services`, `networks` and
/// `links` describes. Members that are not named here are passed over; a
/// member that is missing or of another kind leaves nothing.
pub open spec fn network_info_of(value: JsonModel) -> Option<NetworkInfoView> {
    match (services_member(value), networks_member(value), links_member(value)) {
        (Some(services), Some(networks), Some(links)) => Some(
            NetworkInfoView { services, networks, links },
        ),
        _ => None,
    }
}

/// The vendor data that an object with the member `network_info` describes.
pub open spec fn vendor_data_of(value: JsonModel) -> Option<VendorDataView> {
    match member(value, "network_info"@) {
        Some(inner) => match network_info_of(inner) {
            Some(network_info) => Some(VendorDataView { network_info }),
            None => None,
        },
        None => None,
    }
}

/// The metadata in a document value: the value itself read as network
/// metadata, or else the value read as vendor data and unwrapped.
pub open spec fn metadata_of(value: JsonModel) -> Option<NetworkInfoView> {
    match network_info_of(value) {
        Some(info) => Some(info),
        None => match vendor_data_of(value) {
            Some(data) => Some(data.network_info),
            None => None,
        },
    }
}

/// The metadata in the text of a document; nothing where the text is no JSON
/// document or has neither shape.
pub open spec fn metadata_in(text: Seq<char>) -> Option<NetworkInfoView> {
    match parsed(text) {
        Some(value) => metadata_of(value),
        None => None,
    }
}

/// The metadata in what was read from a candidate file; nothing where the
/// file could not be read.
pub open spec fn metadata_read(content: Option<Seq<char>>) -> Option<NetworkInfoView> {
    match content {
        Some(text) => metadata_in(text),
        None => None,
    }
}

impl Service {
    /// Decodes a service.
    pub fn from_json(value: &JsonValue) -> (service: Option<Service>)
        ensures
            view_of(service) == service_of(value@),
    {
        let service_type = match value.find_text("type") {
            Some(s) => s.clone(),
            None => return None,
        };
        let address = match value.find_text("address") {
            Some(s) => s.clone(),
            None => return None,
        };
        Some(Service { service_type, address })
    }
}

impl Route {
    /// Decodes a route.
    pub fn from_json(value: &JsonValue) -> (route: Option<Route>)
        ensures
            view_of(route) == route_of(value@),
    {
        let netmask = match value.find_text("netmask") {
            Some(s) => s.clone(),
            None => return None,
        };
        let network = match value.find_text("network") {
            Some(s) => s.clone(),
            None => return None,
        };
        let gateway = match value.find_text("gateway") {
            Some(s) => s.clone(),
            None => return None,
        };
        Some(Route { netmask, network, gateway })
    }
}

/// Decodes an array of routes.
pub fn routes_from_json(items: &Vec<JsonValue>) -> (routes: Option<Vec<Route>>)
    ensures
        match routes {
            Some(list) => routes_of(crate::json::models(items@)) == Some(route_views(list@)),
            None => routes_of(crate::json::models(items@)) is None,
        },
{
    let ghost models = crate::json::models(items@);
    let ghost results = route_results(models);
    let mut list: Vec<Route> = Vec::new();
    let mut i: usize = 0;
    while i < items.len()
        invariant
            i <= items@.len(),
            models == crate::json::models(items@),
            results == route_results(models),
            list@.len() == i,
            forall|k: int| 0 <= k < i ==> (#[trigger] results[k]) == Some(list@[k]@),
        decreases items@.len() - i,
    {
        match Route::from_json(&items[i]) {
            Some(route) => {
                list.push(route);
            },
            None => {
                proof {
                    assert(results[i as int] is None);
                }
                return None;
            },
        }
        i = i + 1;
    }
    proof {
        lemma_all_decoded(results, route_views(list@));
    }
    Some(list)
}

impl Network {
    /// Decodes a network.
    pub fn from_json(value: &JsonValue) -> (network: Option<Network>)
        ensures
            view_of(network) == network_of(value@),
    {
        let network_id = match value.find_text("network_id") {
            Some(s) => s.clone(),
            None => return None,
        };
        let network_type = match value.find_text("type") {
            Some(s) => s.clone(),
            None => return None,
        };
        let netmask = match value.find_text("netmask") {
            Some(s) => s.clone(),
            None => return None,
        };
        let link = match value.find_text("link") {
            Some(s) => s.clone(),
            None => return None,
        };
        let routes = match value.find_array("routes") {
            Some(items) => match routes_from_json(items) {
                Some(routes) => routes,
                None => return None,
            },
            None => return None,
        };
        let ip_address = match value.find_text("ip_address") {
            Some(s) => s.clone(),
            None => return None,
        };
        let id = match value.find_text("id") {
            Some(s) => s.clone(),
            None => return None,
        };
        Some(Network { network_id, network_type, netmask, link, routes, ip_address, id })
    }
}

/// Reads a value as a 16-bit number.
pub fn u16_from_json(value: &JsonValue) -> (number: Option<u16>)
    ensures
        number == u16_of(value@),
{
    match value {
        JsonValue::Signed(n) => if 0 <= *n && *n <= 65535 {
            Some(*n as u16)
        } else {
            None
        },
        JsonValue::Unsigned(n) => if *n <= 65535 {
            Some(*n as u16)
        } else {
            None
        },
        JsonValue::Text(text) => parse_u16(text.as_str()),
        _ => None,
    }
}

impl Link {
    /// Decodes a link.
    pub fn from_json(value: &JsonValue) -> (link: Option<Link>)
        ensures
            view_of(link) == link_of(value@),
    {
        let ethernet_mac_address = match value.find_text("ethernet_mac_address") {
            Some(s) => s.clone(),
            None => return None,
        };
        let mtu = match value.find("mtu") {
            Some(number) => match u16_from_json(number) {
                Some(mtu) => mtu,
                None => return None,
            },
            None => return None,
        };
        let id = match value.find_text("id") {
            Some(s) => s.clone(),
            None => return None,
        };
        let vif_id = match value.find_text("vif_id") {
            Some(s) => s.clone(),
            None => return None,
        };
        Some(Link { ethernet_mac_address, mtu, id, vif_id })
    }
}

/// Decodes the array of services of a document.
pub fn services_from_json(value: &JsonValue) -> (services: Option<Vec<Service>>)
    ensures
        match services {
            Some(list) => services_member(value@) == Some(service_views(list@)),
            None => services_member(value@) is None,
        },
{
    let items = match value.find_array("services") {
        Some(items) => items,
        None => return None,
    };
    let ghost models = crate::json::models(items@);
    let ghost results = service_results(models);
    let mut list: Vec<Service> = Vec::new();
    let mut i: usize = 0;
    while i < items.len()
        invariant
            i <= items@.len(),
            models == crate::json::models(items@),
            array_member(value@, "services"@) == Some(models),
            results == service_results(models),
            list@.len() == i,
            forall|k: int| 0 <= k < i ==> (#[trigger] results[k]) == Some(list@[k]@),
        decreases items@.len() - i,
    {
        match Service::from_json(&items[i]) {
            Some(service) => {
                list.push(service);
            },
            None => {
                proof {
                    assert(results[i as int] is None);
                }
                return None;
            },
        }
        i = i + 1;
    }
    proof {
        lemma_all_decoded(results, service_views(list@));
    }
    Some(list)
}

/// Decodes the array of networks of a document.
pub fn networks_from_json(value: &JsonValue) -> (networks: Option<Vec<Network>>)
    ensures
        match networks {
            Some(list) => networks_member(value@) == Some(network_views(list@)),
            None => networks_member(value@) is None,
        },
{
    let items = match value.find_array("networks") {
        Some(items) => items,
        None => return None,
    };
    let ghost models = crate::json::models(items@);
    let ghost results = network_results(models);
    let mut list: Vec<Network> = Vec::new();
    let mut i: usize = 0;
    while i < items.len()
        invariant
            i <= items@.len(),
            models == crate::json::models(items@),
            array_member(value@, "networks"@) == Some(models),
            results == network_results(models),
            list@.len() == i,
            forall|k: int| 0 <= k < i ==> (#[trigger] results[k]) == Some(list@[k]@),
        decreases items@.len() - i,
    {
        match Network::from_json(&items[i]) {
            Some(network) => {
                list.push(network);
            },
            None => {
                proof {
                    assert(results[i as int] is None);
                }
                return None;
            },
        }
        i = i + 1;
    }
    proof {
        lemma_all_decoded(results, network_views(list@));
    }
    Some(list)
}

/// Decodes the array of links of a document.
pub fn links_from_json(value: &JsonValue) -> (links: Option<Vec<Link>>)
    ensures
        match links {
            Some(list) => links_member(value@) == Some(link_views(list@)),
            None => links_member(value@) is None,
        },
{
    let items = match value.find_array("links") {
        Some(items) => items,
        None => return None,
    };
    let ghost models = crate::json::models(items@);
    let ghost results = link_results(models);
    let mut list: Vec<Link> = Vec::new();
    let mut i: usize = 0;
    while i < items.len()
        invariant
            i <= items@.len(),
            models == crate::json::models(items@),
            array_member(value@, "links"@) == Some(models),
            results == link_results(models),
            list@.len() == i,
            forall|k: int| 0 <= k < i ==> (#[trigger] results[k]) == Some(list@[k]@),
        decreases items@.len() - i,
    {
        match Link::from_json(&items[i]) {
            Some(link) => {
                list.push(link);
            },
            None => {
                proof {
                    assert(results[i as int] is None);
                }
                return None;
            },
        }
        i = i + 1;
    }
    proof {
        lemma_all_decoded(results, link_views(list@));
    }
    Some(list)
}

impl VendorData {
    /// Decodes vendor data.
    pub fn from_json(value: &JsonValue) -> (data: Option<VendorData>)
        ensures
            view_of(data) == vendor_data_of(value@),
    {
        match value.find("network_info") {
            Some(inner) => match NetworkInfo::decode(inner) {
                Some(network_info) => Some(VendorData { network_info }),
                None => None,
            },
            None => None,
        }
    }
}

/// The path of a metadata file: `data_path` below `mnt/config` below the root.
pub open spec fn metadata_path(root: Option<Seq<char>>, data_path: Seq<char>) -> Seq<char> {
    joined(joined(base_root(root), "mnt/config"@), data_path)
}

/// The addresses of the services of type `dns`, in their order.
pub open spec fn dns_of(services: Seq<ServiceView>) -> Seq<Seq<char>> {
    services.filter(|s: ServiceView| s.service_type == "dns"@).map_values(
        |s: ServiceView| s.address,
    )
}

/// The key that a hardware address is filed under: its lower-case form,
/// folding either every character or the ASCII capitals alone.
pub open spec fn address_key(address: Seq<char>, ascii_only: bool) -> Seq<char> {
    if ascii_only {
        ascii_lowercase(address)
    } else {
        lowercase(address)
    }
}

/// `map` after filing, under the key of `link`, each of `networks` that names
/// `link`, one after the other.
pub open spec fn index_link(
    map: Map<Seq<char>, NetworkView>,
    link: LinkView,
    networks: Seq<NetworkView>,
    ascii_only: bool,
) -> Map<Seq<char>, NetworkView>
    decreases networks.len(),
{
    if networks.len() == 0 {
        map
    } else {
        let before = index_link(map, link, networks.drop_last(), ascii_only);
        if networks.last().link == link.id {
            before.insert(address_key(link.ethernet_mac_address, ascii_only), networks.last())
        } else {
            before
        }
    }
}

/// The index over `networks` by the hardware addresses of `links`: link by
/// link, every network that names the link is filed under the link's key, a
/// later one replacing an earlier one.
pub open spec fn index_links(
    links: Seq<LinkView>,
    networks: Seq<NetworkView>,
    ascii_only: bool,
) -> Map<Seq<char>, NetworkView>
    decreases links.len(),
{
    if links.len() == 0 {
        Map::empty()
    } else {
        index_link(
            index_links(links.drop_last(), networks, ascii_only),
            links.last(),
            networks,
            ascii_only,
        )
    }
}

/// Filing the networks of a link keeps every key that is there.
pub proof fn lemma_index_link_keeps(
    map: Map<Seq<char>, NetworkView>,
    link: LinkView,
    networks: Seq<NetworkView>,
    ascii_only: bool,
    key: Seq<char>,
)
    requires
        map.contains_key(key),
    ensures
        index_link(map, link, networks, ascii_only).contains_key(key),
    decreases networks.len(),
{
    if networks.len() > 0 {
        lemma_index_link_keeps(map, link, networks.drop_last(), ascii_only, key);
    }
}

/// A link that one of the networks names has its key in the index.
pub proof fn lemma_index_link_holds(
    map: Map<Seq<char>, NetworkView>,
    link: LinkView,
    networks: Seq<NetworkView>,
    ascii_only: bool,
    j: int,
)
    requires
        0 <= j < networks.len(),
        networks[j].link == link.id,
    ensures
        index_link(map, link, networks, ascii_only).contains_key(
            address_key(link.ethernet_mac_address, ascii_only),
        ),
    decreases networks.len(),
{
    if j < networks.len() - 1 {
        lemma_index_link_holds(map, link, networks.drop_last(), ascii_only, j);
    }
}

/// The index is an inner join: it holds the key of every link that a network
/// names.
pub proof fn lemma_index_holds_linked(
    links: Seq<LinkView>,
    networks: Seq<NetworkView>,
    ascii_only: bool,
    i: int,
    j: int,
)
    requires
        0 <= i < links.len(),
        0 <= j < networks.len(),
        networks[j].link == links[i].id,
    ensures
        index_links(links, networks, ascii_only).contains_key(
            address_key(links[i].ethernet_mac_address, ascii_only),
        ),
    decreases links.len(),
{
    let before = index_links(links.drop_last(), networks, ascii_only);
    if i < links.len() - 1 {
        lemma_index_holds_linked(links.drop_last(), networks, ascii_only, i, j);
        lemma_index_link_keeps(
            before,
            links.last(),
            networks,
            ascii_only,
            address_key(links[i].ethernet_mac_address, ascii_only),
        );
    } else {
        lemma_index_link_holds(before, links.last(), networks, ascii_only, j);
    }
}

/// A key that filing the networks of a link has added stands for a network
/// that names the link.
pub proof fn lemma_index_link_source(
    map: Map<Seq<char>, NetworkView>,
    link: LinkView,
    networks: Seq<NetworkView>,
    ascii_only: bool,
    key: Seq<char>,
)
    requires
        index_link(map, link, networks, ascii_only).contains_key(key),
    ensures
        (map.contains_key(key) && index_link(map, link, networks, ascii_only)[key] == map[key])
            || exists|j: int|
            0 <= j < networks.len() && (#[trigger] networks[j]).link == link.id && key
                == address_key(link.ethernet_mac_address, ascii_only) && index_link(
                map,
                link,
                networks,
                ascii_only,
            )[key] == networks[j],
    decreases networks.len(),
{
    if networks.len() > 0 {
        let front = networks.drop_last();
        let last = networks.len() - 1;
        if networks.last().link == link.id && key == address_key(
            link.ethernet_mac_address,
            ascii_only,
        ) {
            assert(networks[last].link == link.id);
        } else {
            lemma_index_link_source(map, link, front, ascii_only, key);
            if !(map.contains_key(key) && index_link(map, link, front, ascii_only)[key]
                == map[key]) {
                let j = choose|j: int|
                    0 <= j < front.len() && (#[trigger] front[j]).link == link.id && key
                        == address_key(link.ethernet_mac_address, ascii_only) && index_link(
                        map,
                        link,
                        front,
                        ascii_only,
                    )[key] == front[j];
                assert(networks[j] == front[j]);
            }
        }
    }
}

/// The index holds nothing else: every key in it is the key of a link, and
/// stands for a network that names that link.
pub proof fn lemma_index_only_linked(
    links: Seq<LinkView>,
    networks: Seq<NetworkView>,
    ascii_only: bool,
    key: Seq<char>,
)
    requires
        index_links(links, networks, ascii_only).contains_key(key),
    ensures
        exists|i: int, j: int|
            0 <= i < links.len() && 0 <= j < networks.len() && (#[trigger] networks[j]).link == (
            #[trigger] links[i]).id && key == address_key(
                links[i].ethernet_mac_address,
                ascii_only,
            ) && index_links(links, networks, ascii_only)[key] == networks[j],
    decreases links.len(),
{
    if links.len() > 0 {
        let front = links.drop_last();
        let last = links.len() - 1;
        let before = index_links(front, networks, ascii_only);
        lemma_index_link_source(before, links.last(), networks, ascii_only, key);
        if before.contains_key(key) && index_links(links, networks, ascii_only)[key]
            == before[key] {
            lemma_index_only_linked(front, networks, ascii_only, key);
            let (i, j) = choose|i: int, j: int|
                0 <= i < front.len() && 0 <= j < networks.len() && (#[trigger] networks[j]).link
                    == (#[trigger] front[i]).id && key == address_key(
                    front[i].ethernet_mac_address,
                    ascii_only,
                ) && before[key] == networks[j];
            assert(links[i] == front[i]);
        } else {
            let j = choose|j: int|
                0 <= j < networks.len() && (#[trigger] networks[j]).link == links.last().id && key
                    == address_key(links.last().ethernet_mac_address, ascii_only) && index_link(
                    before,
                    links.last(),
                    networks,
                    ascii_only,
                )[key] == networks[j];
            assert(links[last] == links.last());
        }
    }
}

/// The index of the metadata `info`, with keys folded character by
/// character.
pub open spec fn interface_index(info: NetworkInfoView) -> Map<Seq<char>, NetworkView> {
    index_links(info.links, info.networks, false)
}

/// Builds the index of `info`.
pub(crate) fn build_index(info: &NetworkInfo, ascii_only: bool) -> (map: InterfaceMap)
    ensures
        map@ == index_links(info@.links, info@.networks, ascii_only),
{
    let mut map = InterfaceMap::new();
    let ghost links = info@.links;
    let ghost networks = info@.networks;
    let mut i: usize = 0;
    proof {
        assert(links.take(0) =~= Seq::<LinkView>::empty());
    }
    while i < info.links.len()
        invariant
            i <= info.links@.len(),
            links == info@.links,
            networks == info@.networks,
            map@ == index_links(links.take(i as int), networks, ascii_only),
        decreases info.links@.len() - i,
    {
        let link = &info.links[i];
        let ghost start = map@;
        let mut j: usize = 0;
        proof {
            assert(networks.take(0) =~= Seq::<NetworkView>::empty());
            assert(links.take(i + 1).drop_last() == links.take(i as int));
            assert(links.take(i + 1).last() == link@);
        }
        while j < info.networks.len()
            invariant
                j <= info.networks@.len(),
                networks == info@.networks,
                map@ == index_link(start, link@, networks.take(j as int), ascii_only),
            decreases info.networks@.len() - j,
        {
            let net = &info.networks[j];
            proof {
                assert(networks.take(j + 1).drop_last() == networks.take(j as int));
                assert(networks.take(j + 1).last() == net@);
            }
            if net.link == link.id {
                let key = if ascii_only {
                    to_ascii_lowercase(link.ethernet_mac_address.as_str())
                } else {
                    to_lowercase(link.ethernet_mac_address.as_str())
                };
                map.insert(key, net.clone());
            }
            j = j + 1;
        }
        proof {
            assert(networks.take(networks.len() as int) == networks);
        }
        i = i + 1;
    }
    proof {
        assert(links.take(links.len() as int) == links);
    }
    map
}

/// Decodes a document: first as network metadata, then as vendor data.
pub fn network_info_from_json(value: &JsonValue) -> (info: Option<NetworkInfo>)
    ensures
        view_of(info) == metadata_of(value@),
{
    match NetworkInfo::decode(value) {
        Some(info) => Some(info),
        None => match VendorData::from_json(value) {
            Some(data) => Some(data.network_info),
            None => None,
        },
    }
}

/// Reads the text of a document.
pub fn network_info_from_string(json_string: &str) -> (info: Option<NetworkInfo>)
    ensures
        view_of(info) == metadata_in(json_string@),
{
    match parse(json_string) {
        Some(value) => network_info_from_json(&value),
        None => None,
    }
}

impl NetworkInfo {
    /// Decodes network metadata.
    pub fn decode(value: &JsonValue) -> (info: Option<NetworkInfo>)
        ensures
            view_of(info) == network_info_of(value@),
    {
        let services = match services_from_json(value) {
            Some(services) => services,
            None => return None,
        };
        let networks = match networks_from_json(value) {
            Some(networks) => networks,
            None => return None,
        };
        let links = match links_from_json(value) {
            Some(links) => links,
            None => return None,
        };
        Some(NetworkInfo { services, networks, links })
    }

    /// Where the metadata file `data_path` of the machine under `root` lies.
    pub fn location(root: &Option<String>, data_path: &str) -> (path: String)
        ensures
            path@ == metadata_path(opt_view(*root), data_path@),
    {
        let base = base_root_path(root);
        let config = join_path(base.as_str(), "mnt/config");
        join_path(config.as_str(), data_path)
    }

    /// The metadata in what was read from a metadata file, `None` standing
    /// for a file that could not be read.
    pub fn new(content: &Option<String>) -> (info: Option<NetworkInfo>)
        ensures
            view_of(info) == metadata_read(opt_view(*content)),
    {
        match content {
            Some(text) => network_info_from_string(text.as_str()),
            None => None,
        }
    }

    /// The index from lower-case hardware address to network.
    pub fn get_interface_map(&self) -> (map: InterfaceMap)
        ensures
            map@ == interface_index(self@),
    {
        build_index(self, false)
    }

    /// The addresses of the name servers.
    pub fn get_dns(&self) -> (dns: Vec<String>)
        ensures
            string_views(dns@) == dns_of(self@.services),
    {
        let mut dns: Vec<String> = Vec::new();
        let ghost services = self@.services;
        let ghost is_dns = |s: ServiceView| s.service_type == "dns"@;
        let ghost address = |s: ServiceView| s.address;
        let mut i: usize = 0;
        proof {
            reveal(Seq::filter);
            assert(services.take(0) =~= Seq::<ServiceView>::empty());
            assert(string_views(dns@) =~= services.take(0).filter(is_dns).map_values(address));
        }
        while i < self.services.len()
            invariant
                i <= self.services@.len(),
                services == self@.services,
                is_dns == |s: ServiceView| s.service_type == "dns"@,
                address == |s: ServiceView| s.address,
                string_views(dns@) == services.take(i as int).filter(is_dns).map_values(address),
            decreases self.services@.len() - i,
        {
            let service = &self.services[i];
            let ghost before = dns@;
            proof {
                reveal(Seq::filter);
                assert(services.take(i + 1).drop_last() == services.take(i as int));
                assert(services.take(i + 1).last() == service@);
            }
            if same_text(service.service_type.as_str(), "dns") {
                dns.push(service.address.clone());
                proof {
                    assert(string_views(dns@) =~= string_views(before).push(service@.address));
                    assert(services.take(i + 1).filter(is_dns).map_values(address)
                        =~= services.take(i as int).filter(is_dns).map_values(address).push(
                        service@.address,
                    ));
                }
            }
            i = i + 1;
        }
        proof {
            assert(services.take(services.len() as int) == services);
        }
        dns
    }
}

} // verus!
