use wot_serve::advertise::{Advertiser, Ipv4, ThingType};

fn prop<'a>(rec: &'a wot_serve::advertise::ServiceRecord, key: &str) -> &'a str {
    rec.props
        .iter()
        .find(|(k, _)| k == key)
        .map(|(_, v)| v.as_str())
        .expect("TXT property missing")
}

#[test]
fn set_hostname() {
    let ad = Advertiser::new().unwrap();
    let rec = ad
        .add_service("TestLampHostname")
        .hostname("testhost")
        .service_record();
    assert_eq!(rec.domain, "_wot._tcp.local.");
    assert_eq!(rec.name, "TestLampHostname");
    assert_eq!(prop(&rec, "td"), "/.well-known/wot");
    assert_eq!(prop(&rec, "type"), "Thing");
    assert_eq!(rec.hostname, "testhost");
}

#[test]
fn set_path() {
    let ad = Advertiser::new().unwrap();
    let rec = ad
        .add_service("TestLampPath")
        .path("/test/path")
        .service_record();
    assert_eq!(rec.domain, "_wot._tcp.local.");
    assert_eq!(rec.name, "TestLampPath");
    assert_eq!(prop(&rec, "td"), "/test/path");
    assert_eq!(prop(&rec, "type"), "Thing");
}

#[test]
fn set_type() {
    let ad = Advertiser::new().unwrap();
    let rec = ad
        .add_service("TestDirectory")
        .thing_type(ThingType::Directory)
        .service_record();
    assert_eq!(rec.domain, "_directory._sub._wot._tcp.local.");
    assert_eq!(prop(&rec, "td"), "/.well-known/wot");
    assert_eq!(prop(&rec, "type"), "Directory");
}

#[test]
fn default_record() {
    let ad = Advertiser::new().unwrap();
    let rec = ad.add_service("Lamp").service_record();
    assert_eq!(rec.domain, "_wot._tcp.local.");
    assert_eq!(rec.port, 8080);
    assert_eq!(prop(&rec, "td"), "/.well-known/wot");
    assert_eq!(prop(&rec, "type"), "Thing");
    // The advertiser's own hostname is normalized to end in ".local.".
    assert!(rec.hostname.ends_with(".local."));
}

#[test]
fn service_types() {
    assert_eq!(ThingType::Thing.to_service_type(), "_wot");
    assert_eq!(ThingType::Directory.to_service_type(), "_directory._sub._wot");
    assert_eq!(ThingType::Thing.to_dns_type(), "Thing");
    assert_eq!(ThingType::Directory.to_dns_type(), "Directory");
    assert_eq!(ThingType::default(), ThingType::Thing);
}

#[test]
fn ip_list_formatting() {
    let ad = Advertiser::new().unwrap();
    let ips = vec![
        Ipv4 { a: 192, b: 168, c: 1, d: 2 },
        Ipv4 { a: 10, b: 0, c: 0, d: 7 },
    ];
    let rec = ad.add_service("Ips").ips(ips).service_record();
    assert_eq!(rec.ip_csv, "192.168.1.2,10.0.0.7");
    let rec = ad.add_service("NoIps").ips(Vec::new()).service_record();
    assert_eq!(rec.ip_csv, "");
    let rec = ad
        .add_service("MaxIp")
        .ips(vec![Ipv4 { a: 255, b: 255, c: 255, d: 255 }, Ipv4 { a: 0, b: 0, c: 0, d: 0 }])
        .service_record();
    assert_eq!(rec.ip_csv, "255.255.255.255,0.0.0.0");
}

#[test]
fn port_override() {
    let ad = Advertiser::new().unwrap();
    let rec = ad.add_service("Ported").port(3000).service_record();
    assert_eq!(rec.port, 3000);
}
