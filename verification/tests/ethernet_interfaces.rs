use ochami_rs::ethernet_interfaces::{
    delete_all, delete_ip_address, delete_one, get, get_ip_addresses, get_one, patch, post,
    post_ip_addresses, ComponentEthernetInterface, ComponentEthernetInterfaceArray,
    IpAddressMapping, Method,
};

const BASE: &str = "https://api.example/";

fn interface(component_id: Option<&str>) -> ComponentEthernetInterface {
    ComponentEthernetInterface {
        id: Some("a4bf0138ee65".to_string()),
        description: None,
        mac_address: Some("a4:bf:01:38:ee:65".to_string()),
        ip_addresses: Some(vec![IpAddressMapping {
            ip_address: "10.252.0.1".to_string(),
            network: Some("HMN".to_string()),
        }]),
        last_update: None,
        component_id: component_id.map(|id| id.to_string()),
        parent_hms_type: None,
    }
}

fn pairs(list: &[(&str, &str)]) -> Vec<(String, String)> {
    list.iter().map(|(name, value)| (name.to_string(), value.to_string())).collect()
}

#[test]
fn default_mapping_is_empty() {
    let mapping = IpAddressMapping::default();
    assert_eq!(mapping.ip_address, "");
    assert_eq!(mapping.network, None);
}

#[test]
fn interface_array_holds_interfaces() {
    let array = ComponentEthernetInterfaceArray {
        ethernet_interfaces: Some(vec![interface(Some("x1")), interface(None)]),
    };
    let copy = array.clone();
    assert_eq!(copy.ethernet_interfaces.map(|list| list.len()), Some(2));
}

#[test]
fn post_request() {
    let request = post(BASE, interface(Some("x1000c0s0b0n0")));
    assert!(matches!(request.method, Method::Post));
    assert_eq!(request.url, "https://api.example//hsm/v2/Inventory/EthernetInterfaces");
    assert!(request.query.is_empty());
    let body = request.body.expect("the interface goes along");
    assert_eq!(body.id.as_deref(), Some("a4bf0138ee65"));
    assert_eq!(body.component_id.as_deref(), Some("x1000c0s0b0n0"));
}

#[test]
fn post_ip_addresses_request() {
    let request = post_ip_addresses("http://h", interface(Some("x1")));
    assert!(matches!(request.method, Method::Post));
    assert_eq!(request.url, "http://h/hsm/v2/Inventory/EthernetInterfaces/x1/IPAddresses");
    assert!(request.query.is_empty());
    assert!(request.body.is_some());
}

#[test]
fn get_request() {
    let request = get("http://h", "m", "i", "n", "c", "t", "o", "w");
    assert!(matches!(request.method, Method::Get));
    assert_eq!(request.url, "http://h/smd/hsm/v2/Inventory/EthernetInterfaces");
    assert_eq!(
        request.query,
        pairs(&[
            ("MACAddress", "m"),
            ("IPAddress", "i"),
            ("Network", "n"),
            ("ComponentID", "c"),
            ("Type", "t"),
            ("OlderThan", "o"),
            ("NewerThan", "w"),
        ])
    );
    assert!(request.body.is_none());
}

#[test]
fn get_one_request() {
    let request = get_one("http://h", "a4bf");
    assert!(matches!(request.method, Method::Get));
    assert_eq!(request.url, "http://h/smd/hsm/v2/Inventory/EthernetInterfaces/a4bf");
    assert!(request.query.is_empty());
    assert!(request.body.is_none());
}

#[test]
fn get_ip_addresses_request() {
    let request = get_ip_addresses("http://h", "a4bf");
    assert!(matches!(request.method, Method::Get));
    assert_eq!(request.url, "http://h/smd/hsm/v2/Inventory/EthernetInterfaces/a4bf/IPAddresses");
}

#[test]
fn patch_request() {
    let request = patch("http://h", "x1", Some("first"), ("10.0.0.1", "HMN"));
    assert!(matches!(request.method, Method::Patch));
    assert_eq!(request.url, "http://h/smd/hsm/v2/Inventory/EthernetInterfaces/x1");
    assert_eq!(
        request.query,
        pairs(&[("ethInterfaceID", "10.0.0.1"), ("ipAddress", "10.0.0.1")])
    );
    let body = request.body.expect("the interface goes along");
    assert_eq!(body.description.as_deref(), Some("first"));
    assert_eq!(body.component_id.as_deref(), Some("x1"));
    assert_eq!(body.id, None);
    assert_eq!(body.mac_address, None);
    assert_eq!(body.last_update, None);
    assert_eq!(body.parent_hms_type, None);
    let addresses = body.ip_addresses.expect("one address");
    assert_eq!(addresses.len(), 1);
    assert_eq!(addresses[0].ip_address, "10.0.0.1");
    assert_eq!(addresses[0].network.as_deref(), Some("HMN"));
    let bare = patch("http://h", "x1", None, ("10.0.0.1", "HMN"));
    assert_eq!(bare.body.expect("the interface goes along").description, None);
}

#[test]
fn delete_requests() {
    let all = delete_all("http://h");
    assert!(matches!(all.method, Method::Delete));
    assert_eq!(all.url, "http://h/smd/hsm/v2/Inventory/EthernetInterfaces");
    let one = delete_one("http://h", "a4bf");
    assert!(matches!(one.method, Method::Delete));
    assert_eq!(one.url, "http://h/smd/hsm/v2/Inventory/EthernetInterfaces/a4bf");
    let address = delete_ip_address("http://h", "ignored", "a4bf", "10.0.0.1");
    assert!(matches!(address.method, Method::Delete));
    assert_eq!(
        address.url,
        "http://h/smd/hsm/v2/Inventory/EthernetInterfaces/a4bf/IpAddress/10.0.0.1"
    );
    assert!(all.body.is_none() && one.body.is_none() && address.body.is_none());
    assert!(all.query.is_empty() && one.query.is_empty() && address.query.is_empty());
}
