use ferry_connections::{journeys_url, locations_url, stop_id, FetchError, Location};

#[test]
fn locations_url_of_a_plain_name() {
    assert_eq!(
        locations_url("Berlin"),
        "https://v6.db.transport.rest/locations?query=Berlin&results=1"
    );
}

#[test]
fn locations_url_escapes_the_name() {
    assert_eq!(
        locations_url("Köln Hbf/Bus & Bahn"),
        "https://v6.db.transport.rest/locations?query=K%C3%B6ln%20Hbf%2FBus%20%26%20Bahn&results=1"
    );
    assert_eq!(
        locations_url("a-b_c.d~e+f"),
        "https://v6.db.transport.rest/locations?query=a-b_c.d~e%2Bf&results=1"
    );
    assert_eq!(locations_url(""), "https://v6.db.transport.rest/locations?query=&results=1");
}

#[test]
fn journeys_url_of_two_stops() {
    assert_eq!(
        journeys_url("8011160", "900 120"),
        "https://v6.db.transport.rest/journeys?from=8011160&to=900%20120&results=50&products[bus]=true"
    );
}

#[test]
fn stop_id_is_that_of_the_first_stop() {
    let locations = vec![
        Location { id: Some("8011160".to_string()) },
        Location { id: Some("8000001".to_string()) },
    ];
    assert_eq!(stop_id(&locations), Ok("8011160".to_string()));
}

#[test]
fn stop_id_of_an_empty_reply_fails() {
    assert_eq!(stop_id(&vec![]), Err(FetchError::StopNotFound));
}

#[test]
fn stop_id_missing_in_the_first_stop_fails() {
    let locations = vec![Location { id: None }, Location { id: Some("8000001".to_string()) }];
    assert_eq!(stop_id(&locations), Err(FetchError::StopNotFound));
}
