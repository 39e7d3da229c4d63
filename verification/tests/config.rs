use paxos::config::{settings, Config, SettingsError};
use paxos::state::{Address, IpAddress};

fn nodes() -> Vec<Address> {
    vec![
        Address::new(IpAddress::v4(192, 168, 0, 1), 3000),
        Address::new(IpAddress::v4(192, 168, 0, 2), 3001),
        Address::new(IpAddress::v4(192, 168, 0, 3), 3002),
    ]
}

#[test]
fn settings_take_the_configured_endpoint() {
    let settled =
        settings::<String>(Config { nodes: nodes() }, Ok(1), None, None, Some("v".to_string()))
            .unwrap();
    assert_eq!(settled.nodes, nodes());
    assert_eq!(settled.node_index, 1);
    assert_eq!(settled.address, Address::new(IpAddress::v4(192, 168, 0, 2), 3001));
    assert_eq!(settled.proposal, Some("v".to_string()));
}

#[test]
fn settings_replace_the_ip_and_the_port_where_given() {
    let settled = settings::<String>(
        Config { nodes: nodes() },
        Ok(2),
        Some(Ok(IpAddress::v4(10, 0, 0, 1))),
        None,
        None,
    )
    .unwrap();
    assert_eq!(settled.address, Address::new(IpAddress::v4(10, 0, 0, 1), 3002));
    assert_eq!(settled.proposal, None);

    let settled =
        settings::<String>(Config { nodes: nodes() }, Ok(0), None, Some(Ok(8080)), None).unwrap();
    assert_eq!(settled.address, Address::new(IpAddress::v4(192, 168, 0, 1), 8080));

    let settled = settings::<String>(
        Config { nodes: nodes() },
        Ok(0),
        Some(Ok(IpAddress::V6(1))),
        Some(Ok(9)),
        None,
    )
    .unwrap();
    assert_eq!(settled.address, Address::new(IpAddress::V6(1), 9));
    assert_eq!(settled.nodes, nodes());
}

#[test]
fn settings_report_an_unreadable_node_index_first() {
    let outcome = settings(
        Config { nodes: nodes() },
        Err("index".to_string()),
        Some(Err("ip".to_string())),
        Some(Err("port".to_string())),
        None,
    );
    assert!(matches!(outcome, Err(SettingsError::NodeIndex(ref e)) if e == "index"));
}

#[test]
fn settings_report_a_node_index_out_of_range() {
    let outcome = settings(
        Config { nodes: nodes() },
        Ok(3),
        Some(Err("ip".to_string())),
        Some(Err("port".to_string())),
        None,
    );
    assert!(matches!(outcome, Err(SettingsError::NoSuchNode(3))));
    let outcome = settings::<String>(Config { nodes: Vec::new() }, Ok(0), None, None, None);
    assert!(matches!(outcome, Err(SettingsError::NoSuchNode(0))));
}

#[test]
fn settings_report_an_unreadable_ip_before_the_port() {
    let outcome = settings(
        Config { nodes: nodes() },
        Ok(0),
        Some(Err("ip".to_string())),
        Some(Err("port".to_string())),
        None,
    );
    assert!(matches!(outcome, Err(SettingsError::Ip(ref e)) if e == "ip"));
}

#[test]
fn settings_report_an_unreadable_port() {
    let outcome = settings(
        Config { nodes: nodes() },
        Ok(0),
        Some(Ok(IpAddress::v4(10, 0, 0, 1))),
        Some(Err("port".to_string())),
        None,
    );
    assert!(matches!(outcome, Err(SettingsError::Port(ref e)) if e == "port"));
}
