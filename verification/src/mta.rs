//! Connection details for the transit-data feeds whose rendered content
//! ends up on the panel. Retrieval and decoding happen outside the core;
//! these types only hold the endpoints and the caller's credentials.

use vstd::prelude::*;

verus! {

/// The real-time feed: its endpoint and the caller's API key.
pub struct MTA {
    key: String,
    rt_endpoint: String,
}

/// The static schedule download: its endpoint.
pub struct MTAStatic {
    static_endpoint: String,
}

impl MTA {
    /// The caller's API key.
    pub closed spec fn spec_key(&self) -> Seq<char> {
        self.key@
    }

    /// The real-time feed endpoint.
    pub closed spec fn spec_rt_endpoint(&self) -> Seq<char> {
        self.rt_endpoint@
    }

    /// Builds the feed details for the given API key, with the fixed
    /// real-time endpoint.
    pub fn new(key: &str) -> (r: Self)
        ensures
            r.spec_key() == key@,
            r.spec_rt_endpoint()
                == "https://api-endpoint.mta.info/Dataservice/mtagtfsfeeds/mnr%2Fgtfs-mnr"@,
    {
        Self {
            key: key.to_owned(),
            rt_endpoint: "https://api-endpoint.mta.info/Dataservice/mtagtfsfeeds/mnr%2Fgtfs-mnr".to_owned(),
        }
    }

    /// Returns the caller's API key.
    pub fn key(&self) -> (r: &str)
        ensures
            r@ == self.spec_key(),
    {
        self.key.as_str()
    }

    /// Returns the real-time feed endpoint.
    pub fn rt_endpoint(&self) -> (r: &str)
        ensures
            r@ == self.spec_rt_endpoint(),
    {
        self.rt_endpoint.as_str()
    }
}

impl MTAStatic {
    /// The schedule download endpoint.
    pub closed spec fn spec_static_endpoint(&self) -> Seq<char> {
        self.static_endpoint@
    }

    /// Builds the schedule details, with the fixed download endpoint.
    pub fn new() -> (r: Self)
        ensures
            r.spec_static_endpoint()
                == "http://web.mta.info/developers/data/mnr/google_transit.zip"@,
    {
        Self {
            static_endpoint: "http://web.mta.info/developers/data/mnr/google_transit.zip".to_owned(),
        }
    }

    /// Returns the schedule download endpoint.
    pub fn static_endpoint(&self) -> (r: &str)
        ensures
            r@ == self.spec_static_endpoint(),
    {
        self.static_endpoint.as_str()
    }

    /// Finishes loading; nothing needs fetching yet, so the details come
    /// back unchanged.
    pub fn load(self) -> (r: Self)
        ensures
            r == self,
    {
        self
    }
}

} // verus!
