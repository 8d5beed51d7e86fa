use gpx_traite::error::TrackError;
use gpx_traite::parser::{parse_document, parse_events, point_from_attributes, TrackBuilder};
use gpx_traite::track::{RawTrack, TrackPoint};
use gpx_traite::xml::{XmlAttribute, XmlEvent};

fn attribute(key: &str, value: &str) -> XmlAttribute {
    XmlAttribute { key: key.to_string(), value: value.to_string() }
}

fn start(name: &str, attributes: Vec<XmlAttribute>) -> XmlEvent {
    XmlEvent::Start { name: name.to_string(), attributes }
}

fn end(name: &str) -> XmlEvent {
    XmlEvent::End { name: name.to_string() }
}

fn text(content: &str) -> XmlEvent {
    XmlEvent::Text { content: content.to_string() }
}

fn point_events(lat: &str, lon: &str, ele: &str, time: &str) -> Vec<XmlEvent> {
    vec![
        start("trkpt", vec![attribute("lat", lat), attribute("lon", lon)]),
        start("ele", vec![]),
        text(ele),
        end("ele"),
        start("time", vec![]),
        text(time),
        end("time"),
        end("trkpt"),
    ]
}

const TWO_POINTS: &str = "<?xml version=\"1.0\" encoding=\"UTF-8\"?>\n\
<gpx version=\"1.1\" creator=\"unit\">\n\
  <metadata><time>2019-12-31T23:59:59Z</time></metadata>\n\
  <trk><name>Morning</name><trkseg>\n\
    <trkpt lat=\"45.5\" lon=\"-122.25\">\n\
      <ele>12.5</ele>\n\
      <time>2020-01-01T00:00:00Z</time>\n\
    </trkpt>\n\
    <!-- a comment -->\n\
    <trkpt lon=\"-122.2500001\" lat=\"45.5000001\" quality=\"good\"><ele> 13 </ele><time>2020-01-01T00:00:05Z</time></trkpt>\n\
  </trkseg></trk>\n\
</gpx>\n";

#[test]
fn document_with_two_points() {
    let track = parse_document(TWO_POINTS.as_bytes());
    assert_eq!(
        track,
        Ok(RawTrack {
            start_timestamp: "2020-01-01T00:00:00Z".to_string(),
            end_timestamp: "2020-01-01T00:00:05Z".to_string(),
            points: vec![
                TrackPoint { latitude: 455_000_000, longitude: -1_222_500_000, elevation: 12_500 },
                TrackPoint { latitude: 455_000_001, longitude: -1_222_500_001, elevation: 13_000 },
            ],
        })
    );
}

#[test]
fn empty_input_is_an_empty_track() {
    assert_eq!(parse_document(b""), Err(TrackError::EmptyTrack));
    assert_eq!(parse_document(b"   \n"), Err(TrackError::EmptyTrack));
    assert_eq!(parse_events(&vec![]), Err(TrackError::EmptyTrack));
    assert_eq!(parse_events(&vec![XmlEvent::Eof]), Err(TrackError::EmptyTrack));
}

#[test]
fn document_without_points_is_an_empty_track() {
    let document = "<gpx><metadata><time>2020-01-01T00:00:00Z</time></metadata>\
                    <trk><trkseg></trkseg></trk></gpx>";
    assert_eq!(parse_document(document.as_bytes()), Err(TrackError::EmptyTrack));
}

#[test]
fn self_closing_point_is_not_a_point() {
    let document = "<gpx><trkpt lat=\"1\" lon=\"2\"/></gpx>";
    assert_eq!(parse_document(document.as_bytes()), Err(TrackError::EmptyTrack));
}

#[test]
fn point_without_elevation_is_refused() {
    let document = "<gpx><trkpt lat=\"1\" lon=\"2\"><time>T</time></trkpt></gpx>";
    assert_eq!(parse_document(document.as_bytes()), Err(TrackError::MissingRequiredField));
    let document = "<gpx><trkpt lat=\"1\" lon=\"2\"><ele></ele><time>T</time></trkpt></gpx>";
    assert_eq!(parse_document(document.as_bytes()), Err(TrackError::MissingRequiredField));
}

#[test]
fn point_without_timestamp_is_refused() {
    let document = "<gpx><time>T</time><trkpt lat=\"1\" lon=\"2\"><ele>3</ele></trkpt></gpx>";
    assert_eq!(parse_document(document.as_bytes()), Err(TrackError::MissingRequiredField));
}

#[test]
fn second_point_must_bring_its_own_fields() {
    let mut events = point_events("1", "2", "3", "T1");
    events.push(start("trkpt", vec![]));
    events.push(end("trkpt"));
    assert_eq!(parse_events(&events), Err(TrackError::MissingRequiredField));
}

#[test]
fn elevation_that_is_no_number_is_refused() {
    let document = "<gpx><trkpt lat=\"1\" lon=\"2\"><ele>high</ele><time>T</time></trkpt></gpx>";
    assert_eq!(parse_document(document.as_bytes()), Err(TrackError::InvalidNumericLiteral));
}

#[test]
fn coordinate_that_is_no_number_is_refused() {
    let document = "<gpx><trkpt lat=\"north\" lon=\"2\"><ele>1</ele><time>T</time></trkpt></gpx>";
    assert_eq!(parse_document(document.as_bytes()), Err(TrackError::InvalidNumericLiteral));
    let document = "<gpx><trkpt lat=\"1\" lon=\"\"><ele>1</ele><time>T</time></trkpt></gpx>";
    assert_eq!(parse_document(document.as_bytes()), Err(TrackError::InvalidNumericLiteral));
}

#[test]
fn other_attributes_are_not_read_as_numbers() {
    let document = "<gpx><trkpt name=\"summit\" lat=\"1\" lon=\"2\"><ele>1</ele><time>T</time></trkpt></gpx>";
    let track = parse_document(document.as_bytes()).unwrap();
    assert_eq!(
        track.points,
        vec![TrackPoint { latitude: 10_000_000, longitude: 20_000_000, elevation: 1_000 }]
    );
}

#[test]
fn missing_coordinates_stay_at_zero() {
    assert_eq!(point_from_attributes(&vec![]), Ok(TrackPoint::origin()));
    assert_eq!(
        point_from_attributes(&vec![attribute("lat", "-3.5")]),
        Ok(TrackPoint { latitude: -35_000_000, longitude: 0, elevation: 0 })
    );
    assert_eq!(
        point_from_attributes(&vec![attribute("LAT", "x"), attribute("lon", "0.0000002")]),
        Ok(TrackPoint { latitude: 0, longitude: 2, elevation: 0 })
    );
    assert_eq!(
        point_from_attributes(&vec![attribute("lon", "1"), attribute("lon", "2")]),
        Ok(TrackPoint { latitude: 0, longitude: 20_000_000, elevation: 0 })
    );
    assert_eq!(
        point_from_attributes(&vec![attribute("lon", "1"), attribute("lat", "1°")]),
        Err(TrackError::InvalidNumericLiteral)
    );
}

#[test]
fn mismatched_closing_tag_is_malformed() {
    let document = "<gpx><trkpt lat=\"1\" lon=\"2\"></gpx>";
    assert_eq!(
        parse_document(document.as_bytes()),
        Err(TrackError::MalformedMarkup { offset: 34 })
    );
}

#[test]
fn unclosed_tag_is_malformed() {
    let document = "<gpx><trkpt lat=\"1\"";
    assert_eq!(
        parse_document(document.as_bytes()),
        Err(TrackError::MalformedMarkup { offset: 19 })
    );
}

#[test]
fn unquoted_attribute_is_malformed() {
    let document = "<gpx><trkpt lat=1 lon=\"2\"><ele>1</ele><time>T</time></trkpt></gpx>";
    assert_eq!(
        parse_document(document.as_bytes()),
        Err(TrackError::MalformedMarkup { offset: 26 })
    );
}

#[test]
fn malformed_event_carries_its_offset() {
    let events = vec![start("gpx", vec![]), XmlEvent::Malformed { offset: 77 }, XmlEvent::Eof];
    assert_eq!(parse_events(&events), Err(TrackError::MalformedMarkup { offset: 77 }));
}

#[test]
fn timestamps_are_the_first_and_the_last_inside_points() {
    let mut events = vec![start("time", vec![]), text("outside"), end("time")];
    events.extend(point_events("1", "2", "3", "first"));
    events.extend(point_events("1", "2", "3", "second"));
    events.extend(point_events("1", "2", "3", "third"));
    events.extend(vec![start("time", vec![]), text("after"), end("time"), XmlEvent::Eof]);
    let track = parse_events(&events).unwrap();
    assert_eq!(track.start_timestamp, "first");
    assert_eq!(track.end_timestamp, "third");
    assert_eq!(track.points.len(), 3);
}

#[test]
fn later_timestamp_of_a_point_wins_as_the_end() {
    let events = vec![
        start("trkpt", vec![attribute("lat", "1"), attribute("lon", "2")]),
        start("ele", vec![]),
        text("1"),
        text("2.5"),
        end("ele"),
        start("time", vec![]),
        text("early"),
        end("time"),
        start("time", vec![]),
        text("late"),
        end("time"),
        end("trkpt"),
    ];
    assert_eq!(
        parse_events(&events),
        Ok(RawTrack {
            start_timestamp: "early".to_string(),
            end_timestamp: "late".to_string(),
            points: vec![TrackPoint { latitude: 10_000_000, longitude: 20_000_000, elevation: 2_500 }],
        })
    );
}

#[test]
fn text_outside_elevation_and_timestamp_is_ignored() {
    let events = vec![
        text("stray"),
        start("trkpt", vec![attribute("lat", "1"), attribute("lon", "2")]),
        text("also stray"),
        start("name", vec![]),
        text("not a number"),
        end("name"),
        start("ele", vec![]),
        text("4"),
        end("ele"),
        start("time", vec![]),
        text("T"),
        end("time"),
        XmlEvent::Other,
        end("trkpt"),
        end("gpx"),
    ];
    let track = parse_events(&events).unwrap();
    assert_eq!(
        track.points,
        vec![TrackPoint { latitude: 10_000_000, longitude: 20_000_000, elevation: 4_000 }]
    );
}

#[test]
fn elevation_outside_a_point_is_ignored() {
    let mut events = vec![start("ele", vec![]), text("not a number"), end("ele")];
    events.extend(point_events("1", "2", "3", "T"));
    assert!(parse_events(&events).is_ok());
}

#[test]
fn reading_stops_at_the_end_of_input() {
    let mut events = point_events("1", "2", "3", "T");
    events.push(XmlEvent::Eof);
    events.extend(point_events("north", "2", "3", "U"));
    let track = parse_events(&events).unwrap();
    assert_eq!(track.points.len(), 1);
    assert_eq!(track.end_timestamp, "T");
}

#[test]
fn builder_takes_events_one_by_one() {
    let mut builder = TrackBuilder::new();
    for event in point_events("0.5", "-0.5", "-1.25", "now") {
        builder = builder.feed(&event).unwrap();
    }
    assert_eq!(
        builder.finish(),
        Ok(RawTrack {
            start_timestamp: "now".to_string(),
            end_timestamp: "now".to_string(),
            points: vec![TrackPoint { latitude: 5_000_000, longitude: -5_000_000, elevation: -1_250 }],
        })
    );
    assert_eq!(TrackBuilder::new().finish(), Err(TrackError::EmptyTrack));
    assert_eq!(
        TrackBuilder::new().feed(&XmlEvent::Malformed { offset: 3 }).err(),
        Some(TrackError::MalformedMarkup { offset: 3 })
    );
}

#[test]
fn new_point_starts_from_the_origin() {
    let mut events = point_events("1", "2", "3", "T");
    events.extend(vec![
        start("trkpt", vec![]),
        start("ele", vec![]),
        text("0"),
        end("ele"),
        start("time", vec![]),
        text("U"),
        end("time"),
        end("trkpt"),
    ]);
    let track = parse_events(&events).unwrap();
    assert_eq!(track.points[1], TrackPoint::origin());
}
