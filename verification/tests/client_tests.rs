use openrailwaymap_exporter::api_client::{BasicOpenRailwayMapApiClient, OverpassApiClient};

#[test]
fn overpass_client_endpoint() {
    let mut client = OverpassApiClient::new();
    assert_eq!(client.endpoint(), "https://overpass-api.de/api/interpreter");
    client.set_url("http://localhost:1234/api/interpreter");
    assert_eq!(client.endpoint(), "http://localhost:1234/api/interpreter");
    assert_eq!(OverpassApiClient::default().endpoint(), "https://overpass-api.de/api/interpreter");
}

#[test]
fn overpass_area_query() {
    let query = OverpassApiClient::area_query("Bad Vilbel");
    assert_eq!(
        query,
        r#"[out:json];area[name="Bad Vilbel"]->.searchArea;(way(area.searchArea)["railway"="rail"];node(area.searchArea)["railway"="switch"];node(area.searchArea)["railway"="buffer_stop"];node(area.searchArea)["railway"="railway_crossing"];);out geom;"#
    );
}

#[test]
fn overpass_bbox_query() {
    let bbox = "1,2,3,4";
    let query = OverpassApiClient::bbox_query(bbox);
    let expected = format!(
        r#"[out:json];(way({})["railway"="rail"];node({})["railway"="switch"];node({})["railway"="buffer_stop"];node({})["railway"="railway_crossing"];);out geom;"#,
        bbox, bbox, bbox, bbox
    );
    assert_eq!(query, expected);
}

#[test]
fn basic_client_queries() {
    let mut client = BasicOpenRailwayMapApiClient::new();
    assert_eq!(client.endpoint(), "https://overpass-api.de/api/interpreter");
    client.set_url("http://example.org/");
    assert_eq!(client.endpoint(), "http://example.org/");
    assert_eq!(
        BasicOpenRailwayMapApiClient::area_query("Berlin"),
        r#"[out:json];area[name="Berlin"]->.searchArea;(way(area.searchArea)["railway"="rail"];node(area.searchArea)["railway"="switch"];);out geom;"#
    );
    assert_eq!(
        BasicOpenRailwayMapApiClient::bbox_query("1,2,3,4"),
        r#"[out:json];(way(1,2,3,4)["railway"="rail"];node(1,2,3,4)["railway"="switch"];);out geom;"#
    );
}
