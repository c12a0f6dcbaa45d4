use hub75::mta::MTAStatic;
use hub75::mta::MTA;

#[test]
fn make_static_request() {
    let _mta_static = MTAStatic::new();
}

#[test]
fn feed_details_hold_key_and_endpoints() {
    let mta = MTA::new("example-key");
    assert_eq!(mta.key(), "example-key");
    assert_eq!(
        mta.rt_endpoint(),
        "https://api-endpoint.mta.info/Dataservice/mtagtfsfeeds/mnr%2Fgtfs-mnr"
    );

    let mta_static = MTAStatic::new().load();
    assert_eq!(
        mta_static.static_endpoint(),
        "http://web.mta.info/developers/data/mnr/google_transit.zip"
    );
}
