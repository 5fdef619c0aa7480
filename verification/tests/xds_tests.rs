use regbridge::store::{MemoryStorage, Storage};
use regbridge::types::{Host, TagEntry};
use regbridge::v2xds::{
    assignment_for, discovery_response, endpoint_for, hosts_to_locality_lb_endpoints, EDS_TYPE_URL,
};

fn tag(key: &str, value: &str) -> TagEntry {
    TagEntry { key: key.to_owned(), value: value.to_owned() }
}

fn host(service: &str, ip: &str, port: u16, tags: Vec<TagEntry>) -> Host {
    Host {
        ip_address: ip.to_owned(),
        port,
        last_check_in: "2024-01-01 00:00:00+00:00".to_owned(),
        expire_time: 0,
        revision: "r1".to_owned(),
        service: service.to_owned(),
        tags,
    }
}

#[test]
fn endpoint_shape() {
    let e = endpoint_for(&host("web", "10.0.0.1", 8080, Vec::new()));
    assert_eq!(e.address, "10.0.0.1:8080");
    assert_eq!(e.weight, 1);
    assert_eq!(e.health, "healthy");
}

#[test]
fn locality_grouping_two_and_one() {
    let hosts = vec![
        host("web", "10.0.0.1", 80, vec![tag("zone", "a")]),
        host("web", "10.0.0.2", 80, vec![tag("zone", "a")]),
        host("web", "10.0.0.3", 80, vec![tag("zone", "b")]),
    ];
    let groups = hosts_to_locality_lb_endpoints(hosts);
    assert_eq!(groups.len(), 2);
    assert_eq!(groups[0].locality, "a");
    assert_eq!(groups[0].lb_endpoints.len(), 2);
    assert_eq!(groups[0].lb_endpoints[0].address, "10.0.0.1:80");
    assert_eq!(groups[0].lb_endpoints[1].address, "10.0.0.2:80");
    assert_eq!(groups[1].locality, "b");
    assert_eq!(groups[1].lb_endpoints.len(), 1);
    assert_eq!(groups[1].lb_endpoints[0].address, "10.0.0.3:80");
}

#[test]
fn hosts_without_zone_share_default_locality() {
    let hosts = vec![
        host("web", "10.0.0.1", 80, Vec::new()),
        host("web", "10.0.0.2", 80, vec![tag("color", "green")]),
        host("web", "10.0.0.3", 80, vec![tag("zone", "a")]),
    ];
    let groups = hosts_to_locality_lb_endpoints(hosts);
    assert_eq!(groups.len(), 2);
    assert_eq!(groups[0].locality, "default");
    assert_eq!(groups[0].lb_endpoints.len(), 2);
    assert_eq!(groups[1].locality, "a");
    assert_eq!(groups[1].lb_endpoints.len(), 1);
}

#[test]
fn first_zone_tag_wins() {
    let hosts = vec![host("web", "10.0.0.1", 80, vec![tag("zone", "x"), tag("zone", "y")])];
    let groups = hosts_to_locality_lb_endpoints(hosts);
    assert_eq!(groups.len(), 1);
    assert_eq!(groups[0].locality, "x");
}

#[test]
fn empty_service_yields_empty_assignment() {
    let a = assignment_for("ghost", Vec::new());
    assert_eq!(a.cluster_name, "ghost");
    assert_eq!(a.type_url, EDS_TYPE_URL);
    assert!(a.endpoints.is_empty());
}

#[test]
fn assignment_carries_type_url_and_name() {
    let a = assignment_for("web", vec![host("web", "10.0.0.1", 80, Vec::new())]);
    assert_eq!(a.type_url, "type.googleapis.com/envoy.api.v2.ClusterLoadAssignment");
    assert_eq!(a.cluster_name, "web");
    assert_eq!(a.endpoints.len(), 1);
}

#[test]
fn discovery_response_batch() {
    let s = MemoryStorage::new(300);
    s.store_item("web", host("web", "10.0.0.1", 8080, vec![tag("zone", "a")])).unwrap();
    let names = vec!["web".to_owned(), "ghost".to_owned()];
    let res = discovery_response(&s, &names).unwrap();
    assert_eq!(res.version_info.len(), 36);
    assert_eq!(res.resources.len(), 2);
    assert_eq!(res.resources[0].cluster_name, "web");
    assert_eq!(res.resources[0].endpoints.len(), 1);
    assert_eq!(res.resources[0].endpoints[0].locality, "a");
    assert_eq!(res.resources[0].endpoints[0].lb_endpoints[0].address, "10.0.0.1:8080");
    assert_eq!(res.resources[1].cluster_name, "ghost");
    assert!(res.resources[1].endpoints.is_empty());
}

#[test]
fn discovery_versions_differ_between_calls() {
    let s = MemoryStorage::new(300);
    let names = vec!["web".to_owned()];
    let a = discovery_response(&s, &names).unwrap();
    let b = discovery_response(&s, &names).unwrap();
    assert_ne!(a.version_info, b.version_info);
}
