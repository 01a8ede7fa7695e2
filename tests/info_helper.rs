use aerospike::info::{parse_services_response, NodeResponse, ServicesResponse};
use aerospike::Error;

#[test]
fn positive_cases() {
    let responses = [
        "9,3000,[[BB9040011AC4202,,[172.17.0.4]],[BB9050011AC4202,,[172.17.0.5]]]",
        "9,3000,[[BB9060011AC4202,,[74.125.239.53]],[BB9070011AC4202,,[74.125.239.54]]]",
        "10,4333,[[BB9060011AC4202,clusternode,[74.125.239.53]],[BB9070011AC4202,clusternode,[74.125.239.54]]]",
        "10,4333,[[BB9040011AC4202,clusternode,[172.17.0.4,74.125.239.53]],[BB9050011AC4202,clusternode,[172.17.0.5,74.125.239.54]]]",
    ];

    let parsed_responses = [
        ServicesResponse {
            peers_generation: 9,
            port: 3000,
            nodes: vec![
                NodeResponse {
                    node_id: "BB9040011AC4202",
                    tls_name: None,
                    endpoints: vec![
                        "172.17.0.4",
                    ]
                },
                NodeResponse {
                    node_id: "BB9050011AC4202",
                    tls_name: None,
                    endpoints: vec![
                        "172.17.0.5",
                    ]
                },
            ],
        },
        ServicesResponse {
            peers_generation: 9,
            port: 3000,
            nodes: vec![
                NodeResponse {
                    node_id: "BB9060011AC4202",
                    tls_name: None,
                    endpoints: vec![
                        "74.125.239.53",
                    ]
                },
                NodeResponse {
                    node_id: "BB9070011AC4202",
                    tls_name: None,
                    endpoints: vec![
                        "74.125.239.54",
                    ]
                },
            ],
        },
        ServicesResponse {
            peers_generation: 10,
            port: 4333,
            nodes: vec![
                NodeResponse {
                    node_id: "BB9060011AC4202",
                    tls_name: Some("clusternode"),
                    endpoints: vec![
                        "74.125.239.53",
                    ]
                },
                NodeResponse {
                    node_id: "BB9070011AC4202",
                    tls_name: Some("clusternode"),
                    endpoints: vec![
                        "74.125.239.54",
                    ]
                },
            ],
        },
        ServicesResponse {
            peers_generation: 10,
            port: 4333,
            nodes: vec![
                NodeResponse {
                    node_id: "BB9040011AC4202",
                    tls_name: Some("clusternode"),
                    endpoints: vec![
                        "172.17.0.4",
                        "74.125.239.53",
                    ]
                },
                NodeResponse {
                    node_id: "BB9050011AC4202",
                    tls_name: Some("clusternode"),
                    endpoints: vec![
                        "172.17.0.5",
                        "74.125.239.54",
                    ]
                },
            ],
        },
    ];

    for (parsed, response) in parsed_responses.iter().zip(responses.iter()) {
        assert_eq!(parsed, &parse_services_response(response).unwrap());
    }
}

#[test]
fn parses_two_nodes_without_tls_name() {
    let r = parse_services_response(
        "9,3000,[[BB9040011AC4202,,[172.17.0.4]],[BB9050011AC4202,,[172.17.0.5]]]",
    )
    .unwrap();
    assert_eq!(r.peers_generation, 9);
    assert_eq!(r.port, 3000);
    assert_eq!(r.nodes.len(), 2);
    assert_eq!(r.nodes[0].node_id, "BB9040011AC4202");
    assert_eq!(r.nodes[0].tls_name, None);
    assert_eq!(r.nodes[0].endpoints, vec!["172.17.0.4"]);
}

#[test]
fn parses_tls_name_and_endpoints_in_order() {
    let r = parse_services_response(
        "10,4333,[[BB9040011AC4202,clusternode,[172.17.0.4,74.125.239.53]]]",
    )
    .unwrap();
    assert_eq!(r.peers_generation, 10);
    assert_eq!(r.port, 4333);
    assert_eq!(r.nodes.len(), 1);
    assert_eq!(r.nodes[0].tls_name, Some("clusternode"));
    assert_eq!(r.nodes[0].endpoints, vec!["172.17.0.4", "74.125.239.53"]);
}

#[test]
fn missing_outer_brackets_is_bad_response() {
    let r = parse_services_response("9,3000,BB9040011AC4202,,[172.17.0.4]");
    assert!(matches!(r, Err(Error::BadResponse(_))));
}

#[test]
fn empty_node_list_text_is_bad_response() {
    assert!(matches!(parse_services_response("9,3000,"), Err(Error::BadResponse(_))));
}

#[test]
fn empty_node_list() {
    let r = parse_services_response("7,3000,[]").unwrap();
    assert_eq!(r, ServicesResponse { peers_generation: 7, port: 3000, nodes: vec![] });
}

#[test]
fn empty_endpoint_list_gives_one_empty_endpoint() {
    let r = parse_services_response("7,3000,[[A,,[]]]").unwrap();
    assert_eq!(r.nodes, vec![NodeResponse { node_id: "A", tls_name: None, endpoints: vec![""] }]);
}

#[test]
fn non_numeric_generation_is_bad_response() {
    assert!(matches!(parse_services_response("x,3000,[]"), Err(Error::BadResponse(_))));
}

#[test]
fn port_out_of_range_is_bad_response() {
    assert!(matches!(parse_services_response("1,65536,[]"), Err(Error::BadResponse(_))));
}

#[test]
fn generation_out_of_range_is_bad_response() {
    assert!(matches!(parse_services_response("4294967296,3000,[]"), Err(Error::BadResponse(_))));
    assert_eq!(parse_services_response("4294967295,3000,[]").unwrap().peers_generation, 4294967295);
}

#[test]
fn unbalanced_close_bracket_is_bad_response() {
    assert!(matches!(parse_services_response("1,3000,[]]]"), Err(Error::BadResponse(_))));
}

#[test]
fn missing_separator_in_node_is_bad_response() {
    assert!(matches!(parse_services_response("1,3000,[[A]]"), Err(Error::BadResponse(_))));
    assert!(matches!(parse_services_response("1,3000,[[A,B]]"), Err(Error::BadResponse(_))));
    assert!(matches!(parse_services_response("1,3000,[[A,B,C]]"), Err(Error::BadResponse(_))));
}

#[test]
fn missing_port_is_bad_response() {
    assert!(matches!(parse_services_response("1"), Err(Error::BadResponse(_))));
    assert!(matches!(parse_services_response("1,[]"), Err(Error::BadResponse(_))));
}

#[test]
fn reprinted_response_parses_to_the_same_structure() {
    let text = "10,4333,[[BB9040011AC4202,clusternode,[172.17.0.4,74.125.239.53]],[BB9050011AC4202,,[172.17.0.5]]]";
    let first = parse_services_response(text).unwrap();
    let mut printed = format!("{},{},[", first.peers_generation, first.port);
    for (i, n) in first.nodes.iter().enumerate() {
        if i > 0 {
            printed.push(',');
        }
        printed.push_str(&format!(
            "[{},{},[{}]]",
            n.node_id,
            n.tls_name.unwrap_or(""),
            n.endpoints.join(",")
        ));
    }
    printed.push(']');
    let second = parse_services_response(&printed).unwrap();
    assert_eq!(first, second);
    assert_eq!(printed, text);
}

#[test]
fn unbracketed_endpoint_list_is_bad_response() {
    assert!(matches!(parse_services_response("9,3000,[[A,,172.17.0.4]]"), Err(Error::BadResponse(_))));
}

#[test]
fn bad_record_after_good_one_rejects_whole_list() {
    let r = parse_services_response("9,3000,[[A,,[1.2.3.4]],[B,,5.6.7.8]]");
    assert!(matches!(r, Err(Error::BadResponse(_))));
}
