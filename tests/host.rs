use aerospike::host::{parse_hosts, DEFAULT_PORT};
use aerospike::{Error, Host, ToHosts};

#[test]
fn to_hosts() {
    assert_eq!(
        vec![Host::new("foo", 3000, None)],
        String::from("foo").to_hosts().unwrap()
    );
    assert_eq!(vec![Host::new("foo", 3000, None)], "foo".to_hosts().unwrap());
    assert_eq!(vec![Host::new("foo", 1234, None)], "foo:1234".to_hosts().unwrap());
    assert_eq!(
        vec![Host::new("foo", 1234, None), Host::new("bar", 1234, None)],
        "foo:1234,bar:1234".to_hosts().unwrap()
    );
    assert_eq!(
        vec![Host::new("foo", 1234, Some("bar")), Host::new("bar", 1234, Some("foo"))],
        "foo:bar:1234,bar:foo:1234".to_hosts().unwrap()
    );
}

#[test]
fn host_with_tls_name_and_port() {
    let hosts = "foo:bar:1234".to_hosts().unwrap();
    assert_eq!(hosts.len(), 1);
    assert_eq!(hosts[0].name, "foo");
    assert_eq!(hosts[0].tls_name(), Some("bar"));
    assert_eq!(hosts[0].port, 1234);
}

#[test]
fn host_alone_gets_default_port() {
    let hosts = "foo".to_hosts().unwrap();
    assert_eq!(hosts[0].port, DEFAULT_PORT);
    assert_eq!(hosts[0].tls_name(), None);
    let hosts = parse_hosts("foo", 4000).unwrap();
    assert_eq!(hosts[0].port, 4000);
}

#[test]
fn invalid_host_lists() {
    for s in ["", "foo:", ":1234", "foo::1234", "foo:bar:baz:1", "foo:x", "foo:70000", "foo,"] {
        assert!(matches!(s.to_hosts(), Err(Error::InvalidArgument(_))), "{}", s);
    }
}

#[test]
fn vec_of_hosts_converts_to_itself() {
    let v = vec![Host::new("a", 1, None), Host::new("b", 2, Some("t"))];
    assert_eq!(v.to_hosts().unwrap(), v);
}

#[test]
fn address_and_text() {
    let h = Host::new("foo", 1234, Some("bar"));
    assert_eq!(h.address(), "foo:1234");
    assert_eq!(h.to_string(), "foo:bar:1234");
    assert_eq!(h.tls_identity(), "bar");
    let h = Host::new("foo", 7, None);
    assert_eq!(h.to_string(), "foo:7");
    assert_eq!(h.tls_identity(), "foo");
    assert_eq!(Host::new("x", 0, None).address(), "x:0");
    assert_eq!(Host::new("x", 65535, None).address(), "x:65535");
}
