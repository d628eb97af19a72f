//! The ethernet interfaces of components, and the requests by which the
//! inventory service is asked about them.
//!
//! Nothing here is sent: each function works out the request that the caller
//! then sends.

use vstd::prelude::*;
use vstd::string::StringExecFns;

verus! {

/// An IP address of an ethernet interface, with the network in which it lies.
#[derive(Debug, Clone)]
pub struct IpAddressMapping {
    pub ip_address: String,
    pub network: Option<String>,
}

/// What an [`IpAddressMapping`] holds, as plain values.
pub struct IpAddressMappingView {
    pub ip_address: Seq<char>,
    pub network: Option<Seq<char>>,
}

impl DeepView for IpAddressMapping {
    type V = IpAddressMappingView;

    open spec fn deep_view(&self) -> IpAddressMappingView {
        IpAddressMappingView {
            ip_address: self.ip_address@,
            network: self.network.deep_view(),
        }
    }
}

impl View for IpAddressMapping {
    type V = IpAddressMappingView;

    open spec fn view(&self) -> IpAddressMappingView {
        self.deep_view()
    }
}

impl Default for IpAddressMapping {
    fn default() -> (mapping: IpAddressMapping)
        ensures
            mapping@ == (IpAddressMappingView { ip_address: Seq::empty(), network: None }),
    {
        IpAddressMapping { ip_address: String::new(), network: None }
    }
}

/// An ethernet interface of a component.
#[derive(Debug, Clone)]
pub struct ComponentEthernetInterface {
    pub id: Option<String>,
    pub description: Option<String>,
    pub mac_address: Option<String>,
    pub ip_addresses: Option<Vec<IpAddressMapping>>,
    pub last_update: Option<String>,
    pub component_id: Option<String>,
    pub parent_hms_type: Option<String>,
}

/// What a [`ComponentEthernetInterface`] holds, as plain values.
pub struct ComponentEthernetInterfaceView {
    pub id: Option<Seq<char>>,
    pub description: Option<Seq<char>>,
    pub mac_address: Option<Seq<char>>,
    pub ip_addresses: Option<Seq<IpAddressMappingView>>,
    pub last_update: Option<Seq<char>>,
    pub component_id: Option<Seq<char>>,
    pub parent_hms_type: Option<Seq<char>>,
}

impl DeepView for ComponentEthernetInterface {
    type V = ComponentEthernetInterfaceView;

    open spec fn deep_view(&self) -> ComponentEthernetInterfaceView {
        ComponentEthernetInterfaceView {
            id: self.id.deep_view(),
            description: self.description.deep_view(),
            mac_address: self.mac_address.deep_view(),
            ip_addresses: self.ip_addresses.deep_view(),
            last_update: self.last_update.deep_view(),
            component_id: self.component_id.deep_view(),
            parent_hms_type: self.parent_hms_type.deep_view(),
        }
    }
}

impl View for ComponentEthernetInterface {
    type V = ComponentEthernetInterfaceView;

    open spec fn view(&self) -> ComponentEthernetInterfaceView {
        self.deep_view()
    }
}

/// A list of ethernet interfaces, as the service hands it out.
#[derive(Debug, Clone)]
pub struct ComponentEthernetInterfaceArray {
    pub ethernet_interfaces: Option<Vec<ComponentEthernetInterface>>,
}

impl DeepView for ComponentEthernetInterfaceArray {
    type V = Option<Seq<ComponentEthernetInterfaceView>>;

    open spec fn deep_view(&self) -> Option<Seq<ComponentEthernetInterfaceView>> {
        self.ethernet_interfaces.deep_view()
    }
}

impl View for ComponentEthernetInterfaceArray {
    type V = Option<Seq<ComponentEthernetInterfaceView>>;

    open spec fn view(&self) -> Option<Seq<ComponentEthernetInterfaceView>> {
        self.deep_view()
    }
}

/// The method of a request.
#[derive(Clone, Copy, Debug)]
pub enum Method {
    Get,
    Post,
    Patch,
    Delete,
}

/// A request to the inventory service, not yet sent.
#[derive(Debug)]
pub struct Request {
    pub method: Method,
    /// The address, without the query.
    pub url: String,
    /// The names and values of the query, in order.
    pub query: Vec<(String, String)>,
    /// The interface that goes along as the body.
    pub body: Option<ComponentEthernetInterface>,
}

/// What a [`Request`] holds, as plain values.
pub struct RequestView {
    pub method: Method,
    pub url: Seq<char>,
    pub query: Seq<(Seq<char>, Seq<char>)>,
    pub body: Option<ComponentEthernetInterfaceView>,
}

impl View for Request {
    type V = RequestView;

    open spec fn view(&self) -> RequestView {
        RequestView {
            method: self.method,
            url: self.url@,
            query: self.query.deep_view(),
            body: self.body.deep_view(),
        }
    }
}

/// The address of all interfaces, below `base_url`.
pub open spec fn collection_url(base_url: Seq<char>) -> Seq<char> {
    base_url + "/smd/hsm/v2/Inventory/EthernetInterfaces"@
}

/// The address of the interface `eth_interface_id`, below `base_url`.
pub open spec fn interface_url(base_url: Seq<char>, eth_interface_id: Seq<char>) -> Seq<char> {
    collection_url(base_url) + "/"@ + eth_interface_id
}

/// The address under which interfaces are created, below `base_url`.
pub open spec fn creation_url(base_url: Seq<char>) -> Seq<char> {
    base_url + "/"@ + "hsm/v2/Inventory/EthernetInterfaces"@
}

fn collection(base_url: &str) -> (url: String)
    ensures
        url@ == collection_url(base_url@),
{
    let mut url = base_url.to_owned();
    url.append("/smd/hsm/v2/Inventory/EthernetInterfaces");
    url
}

fn interface(base_url: &str, eth_interface_id: &str) -> (url: String)
    ensures
        url@ == interface_url(base_url@, eth_interface_id@),
{
    let mut url = collection(base_url);
    url.append("/");
    url.append(eth_interface_id);
    url
}

fn creation(base_url: &str) -> (url: String)
    ensures
        url@ == creation_url(base_url@),
{
    let mut url = base_url.to_owned();
    url.append("/");
    url.append("hsm/v2/Inventory/EthernetInterfaces");
    url
}

fn no_query() -> (query: Vec<(String, String)>)
    ensures
        query.deep_view() == Seq::<(Seq<char>, Seq<char>)>::empty(),
{
    let query: Vec<(String, String)> = Vec::new();
    assert(query.deep_view() =~= Seq::empty());
    query
}

fn push_pair(query: &mut Vec<(String, String)>, name: &str, value: &str)
    ensures
        final(query).deep_view() == old(query).deep_view().push((name@, value@)),
{
    let ghost before = query.deep_view();
    query.push((name.to_owned(), value.to_owned()));
    assert(query.deep_view() =~= before.push((name@, value@)));
}

/// The request that creates `eht_interface`.
pub fn post(base_url: &str, eht_interface: ComponentEthernetInterface) -> (request: Request)
    ensures
        request@ == (RequestView {
            method: Method::Post,
            url: creation_url(base_url@),
            query: Seq::empty(),
            body: Some(eht_interface@),
        }),
{
    Request {
        method: Method::Post,
        url: creation(base_url),
        query: no_query(),
        body: Some(eht_interface),
    }
}

/// The request that adds the IP addresses of `eht_interface` to the interface
/// of its component.
pub fn post_ip_addresses(base_url: &str, eht_interface: ComponentEthernetInterface) -> (request:
    Request)
    requires
        eht_interface.component_id is Some,
    ensures
        request@ == (RequestView {
            method: Method::Post,
            url: creation_url(base_url@) + "/"@ + eht_interface@.component_id->0
                + "/IPAddresses"@,
            query: Seq::empty(),
            body: Some(eht_interface@),
        }),
{
    let mut url = creation(base_url);
    url.append("/");
    match &eht_interface.component_id {
        Some(component_id) => {
            url.append(component_id.as_str());
        },
        None => {},
    }
    url.append("/IPAddresses");
    Request { method: Method::Post, url, query: no_query(), body: Some(eht_interface) }
}

/// The request that lists the interfaces that match the given values.
pub fn get(
    base_url: &str,
    mac_address: &str,
    ip_address: &str,
    network: &str,
    component_id: &str,
    hms_type: &str,
    older_than: &str,
    newer_than: &str,
) -> (request: Request)
    ensures
        request@ == (RequestView {
            method: Method::Get,
            url: collection_url(base_url@),
            query: seq![
                ("MACAddress"@, mac_address@),
                ("IPAddress"@, ip_address@),
                ("Network"@, network@),
                ("ComponentID"@, component_id@),
                ("Type"@, hms_type@),
                ("OlderThan"@, older_than@),
                ("NewerThan"@, newer_than@),
            ],
            body: None,
        }),
{
    let mut query = no_query();
    push_pair(&mut query, "MACAddress", mac_address);
    push_pair(&mut query, "IPAddress", ip_address);
    push_pair(&mut query, "Network", network);
    push_pair(&mut query, "ComponentID", component_id);
    push_pair(&mut query, "Type", hms_type);
    push_pair(&mut query, "OlderThan", older_than);
    push_pair(&mut query, "NewerThan", newer_than);
    assert(query.deep_view() =~= seq![
        ("MACAddress"@, mac_address@),
        ("IPAddress"@, ip_address@),
        ("Network"@, network@),
        ("ComponentID"@, component_id@),
        ("Type"@, hms_type@),
        ("OlderThan"@, older_than@),
        ("NewerThan"@, newer_than@),
    ]);
    Request { method: Method::Get, url: collection(base_url), query, body: None }
}

/// The request that reads the interface `eth_interface_id`.
pub fn get_one(base_url: &str, eth_interface_id: &str) -> (request: Request)
    ensures
        request@ == (RequestView {
            method: Method::Get,
            url: interface_url(base_url@, eth_interface_id@),
            query: Seq::empty(),
            body: None,
        }),
{
    Request {
        method: Method::Get,
        url: interface(base_url, eth_interface_id),
        query: no_query(),
        body: None,
    }
}

/// The request that lists the IP addresses of the interface
/// `eth_interface_id`.
pub fn get_ip_addresses(base_url: &str, eth_interface_id: &str) -> (request: Request)
    ensures
        request@ == (RequestView {
            method: Method::Get,
            url: interface_url(base_url@, eth_interface_id@) + "/IPAddresses"@,
            query: Seq::empty(),
            body: None,
        }),
{
    let mut url = interface(base_url, eth_interface_id);
    url.append("/IPAddresses");
    Request { method: Method::Get, url, query: no_query(), body: None }
}

/// The interface that a patch sends: the component, the description where one
/// is given, and the one IP address with its network.
pub open spec fn patched_interface(
    eth_interface_id: Seq<char>,
    description: Option<Seq<char>>,
    ip_address: Seq<char>,
    network: Seq<char>,
) -> ComponentEthernetInterfaceView {
    ComponentEthernetInterfaceView {
        id: None,
        description,
        mac_address: None,
        ip_addresses: Some(seq![IpAddressMappingView { ip_address, network: Some(network) }]),
        last_update: None,
        component_id: Some(eth_interface_id),
        parent_hms_type: None,
    }
}

/// The request that gives the interface `eth_interface_id` a description and
/// an IP address; `ip_address_mapping` holds the address and its network.
pub fn patch(
    base_url: &str,
    eth_interface_id: &str,
    description: Option<&str>,
    ip_address_mapping: (&str, &str),
) -> (request: Request)
    ensures
        request@ == (RequestView {
            method: Method::Patch,
            url: interface_url(base_url@, eth_interface_id@),
            query: seq![
                ("ethInterfaceID"@, ip_address_mapping.0@),
                ("ipAddress"@, ip_address_mapping.0@),
            ],
            body: Some(
                patched_interface(
                    eth_interface_id@,
                    description.deep_view(),
                    ip_address_mapping.0@,
                    ip_address_mapping.1@,
                ),
            ),
        }),
{
    let ip_address = ip_address_mapping.0;
    let network = ip_address_mapping.1;
    let mut ip_addresses: Vec<IpAddressMapping> = Vec::new();
    ip_addresses.push(
        IpAddressMapping { ip_address: ip_address.to_owned(), network: Some(network.to_owned()) },
    );
    assert(ip_addresses.deep_view() =~= seq![
        IpAddressMappingView { ip_address: ip_address@, network: Some(network@) },
    ]);
    let cei = ComponentEthernetInterface {
        id: None,
        description: match description {
            Some(value) => Some(value.to_owned()),
            None => None,
        },
        mac_address: None,
        ip_addresses: Some(ip_addresses),
        last_update: None,
        component_id: Some(eth_interface_id.to_owned()),
        parent_hms_type: None,
    };
    let mut query = no_query();
    push_pair(&mut query, "ethInterfaceID", ip_address);
    push_pair(&mut query, "ipAddress", ip_address);
    assert(query.deep_view() =~= seq![
        ("ethInterfaceID"@, ip_address@),
        ("ipAddress"@, ip_address@),
    ]);
    Request {
        method: Method::Patch,
        url: interface(base_url, eth_interface_id),
        query,
        body: Some(cei),
    }
}

/// The request that deletes all interfaces.
pub fn delete_all(base_url: &str) -> (request: Request)
    ensures
        request@ == (RequestView {
            method: Method::Delete,
            url: collection_url(base_url@),
            query: Seq::empty(),
            body: None,
        }),
{
    Request { method: Method::Delete, url: collection(base_url), query: no_query(), body: None }
}

/// The request that deletes the interface `eth_interface_id`.
pub fn delete_one(base_url: &str, eth_interface_id: &str) -> (request: Request)
    ensures
        request@ == (RequestView {
            method: Method::Delete,
            url: interface_url(base_url@, eth_interface_id@),
            query: Seq::empty(),
            body: None,
        }),
{
    Request {
        method: Method::Delete,
        url: interface(base_url, eth_interface_id),
        query: no_query(),
        body: None,
    }
}

/// The request that takes `ip_address` away from the interface
/// `eth_interface_id`.
pub fn delete_ip_address(
    base_url: &str,
    _group_label: &str,
    eth_interface_id: &str,
    ip_address: &str,
) -> (request: Request)
    ensures
        request@ == (RequestView {
            method: Method::Delete,
            url: interface_url(base_url@, eth_interface_id@) + "/IpAddress/"@ + ip_address@,
            query: Seq::empty(),
            body: None,
        }),
{
    let mut url = interface(base_url, eth_interface_id);
    url.append("/IpAddress/");
    url.append(ip_address);
    Request { method: Method::Delete, url, query: no_query(), body: None }
}

} // verus!
