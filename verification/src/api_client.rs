//! Clients of the Overpass API: the endpoint they send queries to and the queries they send.
//! Sending a query and reading the reply are left to the caller.
use vstd::prelude::*;

verus! {

/// The public Overpass API endpoint, used where no other has been set.
pub fn default_url() -> (r: &'static str)
    ensures
        r@ == "https://overpass-api.de/api/interpreter"@,
{
    "https://overpass-api.de/api/interpreter"
}

/// A client of the Overpass API that asks for rails, switches, buffer stops and railway
/// crossings.
pub struct OverpassApiClient {
    url: Option<String>,
}

impl View for OverpassApiClient {
    type V = Option<Seq<char>>;

    /// The endpoint set on the client, if one was.
    closed spec fn view(&self) -> Option<Seq<char>> {
        match self.url {
            Some(u) => Some(u@),
            None => None,
        }
    }
}

impl OverpassApiClient {
    /// A client with no endpoint set.
    pub fn new() -> (r: Self)
        ensures
            r@ is None,
    {
        OverpassApiClient { url: None }
    }

    /// Sets the endpoint that queries go to.
    pub fn set_url(&mut self, url: &str)
        ensures
            final(self)@ == Some(url@),
    {
        self.url = Some(String::from_str(url));
    }

    /// The endpoint that queries go to: the one set, or the public Overpass API.
    pub fn endpoint(&self) -> (r: &str)
        ensures
            r@ == match self@ {
                Some(u) => u,
                None => "https://overpass-api.de/api/interpreter"@,
            },
    {
        match &self.url {
            Some(u) => u.as_str(),
            None => default_url(),
        }
    }

    /// The query for the rails, switches, buffer stops and railway crossings in the area named
    /// `area_name`.
    pub fn area_query(area_name: &str) -> (r: String)
        ensures
            r@ == "[out:json];area[name=\""@ + area_name@
                + "\"]->.searchArea;(way(area.searchArea)[\"railway\"=\"rail\"];node(area.searchArea)[\"railway\"=\"switch\"];node(area.searchArea)[\"railway\"=\"buffer_stop\"];node(area.searchArea)[\"railway\"=\"railway_crossing\"];);out geom;"@,
    {
        let mut query = String::from_str("[out:json];area[name=\"");
        query.append(area_name);
        query.append(
            "\"]->.searchArea;(way(area.searchArea)[\"railway\"=\"rail\"];node(area.searchArea)[\"railway\"=\"switch\"];node(area.searchArea)[\"railway\"=\"buffer_stop\"];node(area.searchArea)[\"railway\"=\"railway_crossing\"];);out geom;",
        );
        query
    }

    /// The query for the rails, switches, buffer stops and railway crossings in the bounding
    /// box `bbox` (south, west, north, east).
    pub fn bbox_query(bbox: &str) -> (r: String)
        ensures
            r@ == "[out:json];(way("@ + bbox@ + ")[\"railway\"=\"rail\"];node("@ + bbox@
                + ")[\"railway\"=\"switch\"];node("@ + bbox@ + ")[\"railway\"=\"buffer_stop\"];node("@ + bbox@
                + ")[\"railway\"=\"railway_crossing\"];);out geom;"@,
    {
        let mut query = String::from_str("[out:json];(way(");
        query.append(bbox);
        query.append(")[\"railway\"=\"rail\"];node(");
        query.append(bbox);
        query.append(")[\"railway\"=\"switch\"];node(");
        query.append(bbox);
        query.append(")[\"railway\"=\"buffer_stop\"];node(");
        query.append(bbox);
        query.append(")[\"railway\"=\"railway_crossing\"];);out geom;");
        query
    }
}

impl Default for OverpassApiClient {
    fn default() -> (r: Self)
        ensures
            r@ is None,
    {
        Self::new()
    }
}

/// A client of the Overpass API that asks for rails and switches.
pub struct BasicOpenRailwayMapApiClient {
    url: Option<String>,
}

impl View for BasicOpenRailwayMapApiClient {
    type V = Option<Seq<char>>;

    /// The endpoint set on the client, if one was.
    closed spec fn view(&self) -> Option<Seq<char>> {
        match self.url {
            Some(u) => Some(u@),
            None => None,
        }
    }
}

impl BasicOpenRailwayMapApiClient {
    /// A client with no endpoint set.
    pub fn new() -> (r: Self)
        ensures
            r@ is None,
    {
        BasicOpenRailwayMapApiClient { url: None }
    }

    /// Sets the endpoint that queries go to.
    pub fn set_url(&mut self, url: &str)
        ensures
            final(self)@ == Some(url@),
    {
        self.url = Some(String::from_str(url));
    }

    /// The endpoint that queries go to: the one set, or the public Overpass API.
    pub fn endpoint(&self) -> (r: &str)
        ensures
            r@ == match self@ {
                Some(u) => u,
                None => "https://overpass-api.de/api/interpreter"@,
            },
    {
        match &self.url {
            Some(u) => u.as_str(),
            None => default_url(),
        }
    }

    /// The query for the rails and switches in the area named `area_name`.
    pub fn area_query(area_name: &str) -> (r: String)
        ensures
            r@ == "[out:json];area[name=\""@ + area_name@
                + "\"]->.searchArea;(way(area.searchArea)[\"railway\"=\"rail\"];node(area.searchArea)[\"railway\"=\"switch\"];);out geom;"@,
    {
        let mut query = String::from_str("[out:json];area[name=\"");
        query.append(area_name);
        query.append(
            "\"]->.searchArea;(way(area.searchArea)[\"railway\"=\"rail\"];node(area.searchArea)[\"railway\"=\"switch\"];);out geom;",
        );
        query
    }

    /// The query for the rails and switches in the bounding box `bbox`.
    pub fn bbox_query(bbox: &str) -> (r: String)
        ensures
            r@ == "[out:json];(way("@ + bbox@ + ")[\"railway\"=\"rail\"];node("@ + bbox@
                + ")[\"railway\"=\"switch\"];);out geom;"@,
    {
        let mut query = String::from_str("[out:json];(way(");
        query.append(bbox);
        query.append(")[\"railway\"=\"rail\"];node(");
        query.append(bbox);
        query.append(")[\"railway\"=\"switch\"];);out geom;");
        query
    }
}

impl Default for BasicOpenRailwayMapApiClient {
    fn default() -> (r: Self)
        ensures
            r@ is None,
    {
        Self::new()
    }
}

} // verus!
