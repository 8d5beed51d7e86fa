//! From markup events to a recorded track.
//!
//! The builder keeps three flags (inside a point, inside an elevation, inside
//! a timestamp) and the point under construction. Only `trkpt`, `ele` and
//! `time` elements matter; everything else passes through.

use crate::decimal::{decimal_value, parse_decimal, COORDINATE_DIGITS, ELEVATION_DIGITS};
use crate::error::TrackError;
use crate::track::{origin_point, RawTrack, TrackModel, TrackPoint};
use crate::xml::{
    attribute_models, document_events, next_event, open_reader, pending_events, ends_once,
    is_final, AttributeModel, EventModel, XmlAttribute, XmlEvent,
};
use vstd::prelude::*;
use vstd::utf8::encode_utf8;

verus! {

/// The state between two events.
pub struct BuilderModel {
    pub inside_point: bool,
    pub inside_elevation: bool,
    pub inside_timestamp: bool,
    /// The point under construction has met an elevation.
    pub has_elevation: bool,
    /// The point under construction has met a timestamp.
    pub has_timestamp: bool,
    pub current: TrackPoint,
    pub start_timestamp: Option<Seq<char>>,
    pub end_timestamp: Seq<char>,
    pub points: Seq<TrackPoint>,
}

/// The state before the first event.
pub open spec fn initial() -> BuilderModel {
    BuilderModel {
        inside_point: false,
        inside_elevation: false,
        inside_timestamp: false,
        has_elevation: false,
        has_timestamp: false,
        current: origin_point(),
        start_timestamp: None,
        end_timestamp: Seq::empty(),
        points: Seq::empty(),
    }
}

/// A `lon` or `lat` attribute sets that coordinate; any other is ignored.
pub open spec fn apply_attribute(point: TrackPoint, attribute: AttributeModel) -> Result<
    TrackPoint,
    TrackError,
> {
    if attribute.key == "lon"@ {
        match decimal_value(encode_utf8(attribute.value), COORDINATE_DIGITS as nat) {
            Some(value) => Ok(TrackPoint { longitude: value as i64, ..point }),
            None => Err(TrackError::InvalidNumericLiteral),
        }
    } else if attribute.key == "lat"@ {
        match decimal_value(encode_utf8(attribute.value), COORDINATE_DIGITS as nat) {
            Some(value) => Ok(TrackPoint { latitude: value as i64, ..point }),
            None => Err(TrackError::InvalidNumericLiteral),
        }
    } else {
        Ok(point)
    }
}

/// The attributes applied in order, up to the first that fails.
pub open spec fn apply_attributes(point: TrackPoint, attributes: Seq<AttributeModel>) -> Result<
    TrackPoint,
    TrackError,
>
    decreases attributes.len(),
{
    if attributes.len() == 0 {
        Ok(point)
    } else {
        match apply_attribute(point, attributes[0]) {
            Ok(next) => apply_attributes(next, attributes.drop_first()),
            Err(error) => Err(error),
        }
    }
}

/// The state after an opening tag.
pub open spec fn on_start(
    state: BuilderModel,
    name: Seq<char>,
    attributes: Seq<AttributeModel>,
) -> Result<BuilderModel, TrackError> {
    if name == "trkpt"@ {
        match apply_attributes(origin_point(), attributes) {
            Ok(point) => Ok(
                BuilderModel {
                    inside_point: true,
                    has_elevation: false,
                    has_timestamp: false,
                    current: point,
                    ..state
                },
            ),
            Err(error) => Err(error),
        }
    } else if name == "ele"@ {
        Ok(BuilderModel { inside_elevation: true, ..state })
    } else if name == "time"@ {
        Ok(BuilderModel { inside_timestamp: true, ..state })
    } else {
        Ok(state)
    }
}

/// The state after a closing tag. A point that closes without an elevation
/// or without a timestamp is refused.
pub open spec fn on_end(state: BuilderModel, name: Seq<char>) -> Result<BuilderModel, TrackError> {
    if name == "ele"@ {
        Ok(BuilderModel { inside_elevation: false, ..state })
    } else if name == "time"@ {
        Ok(BuilderModel { inside_timestamp: false, ..state })
    } else if name == "trkpt"@ {
        if state.has_elevation && state.has_timestamp {
            Ok(
                BuilderModel {
                    inside_point: false,
                    points: state.points.push(state.current),
                    ..state
                },
            )
        } else {
            Err(TrackError::MissingRequiredField)
        }
    } else {
        Ok(state)
    }
}

/// The state after character data: an elevation inside `ele`, else a
/// timestamp inside `time`, both only inside a point.
pub open spec fn on_text(state: BuilderModel, content: Seq<char>) -> Result<
    BuilderModel,
    TrackError,
> {
    if state.inside_elevation && state.inside_point {
        match decimal_value(encode_utf8(content), ELEVATION_DIGITS as nat) {
            Some(value) => Ok(
                BuilderModel {
                    has_elevation: true,
                    current: TrackPoint { elevation: value as i64, ..state.current },
                    ..state
                },
            ),
            None => Err(TrackError::InvalidNumericLiteral),
        }
    } else if state.inside_timestamp && state.inside_point {
        Ok(
            BuilderModel {
                has_timestamp: true,
                start_timestamp: if state.start_timestamp is None {
                    Some(content)
                } else {
                    state.start_timestamp
                },
                end_timestamp: content,
                ..state
            },
        )
    } else {
        Ok(state)
    }
}

/// The state after one event.
pub open spec fn step(state: BuilderModel, event: EventModel) -> Result<BuilderModel, TrackError> {
    match event {
        EventModel::Start { name, attributes } => on_start(state, name, attributes),
        EventModel::End { name } => on_end(state, name),
        EventModel::Text { content } => on_text(state, content),
        EventModel::Other => Ok(state),
        EventModel::Malformed { offset } => Err(TrackError::MalformedMarkup { offset }),
        EventModel::Eof => Ok(state),
    }
}

/// The state after a run of events: it stops at the first end of input and
/// fails at the first event that fails.
pub open spec fn run(state: BuilderModel, events: Seq<EventModel>) -> Result<
    BuilderModel,
    TrackError,
>
    decreases events.len(),
{
    if events.len() == 0 || events[0] is Eof {
        Ok(state)
    } else {
        match step(state, events[0]) {
            Ok(next) => run(next, events.drop_first()),
            Err(error) => Err(error),
        }
    }
}

/// The track that a final state stands for: it needs a point and a first
/// timestamp.
pub open spec fn finish(state: BuilderModel) -> Result<TrackModel, TrackError> {
    if state.points.len() == 0 {
        Err(TrackError::EmptyTrack)
    } else {
        match state.start_timestamp {
            Some(start) => Ok(
                TrackModel {
                    start_timestamp: start,
                    end_timestamp: state.end_timestamp,
                    points: state.points,
                },
            ),
            None => Err(TrackError::MissingRequiredField),
        }
    }
}

/// The track that a run of events stands for.
pub open spec fn track_of(events: Seq<EventModel>) -> Result<TrackModel, TrackError> {
    match run(initial(), events) {
        Ok(state) => finish(state),
        Err(error) => Err(error),
    }
}

/// The builder: the three flags, the point under construction, and what has
/// been gathered.
pub struct TrackBuilder {
    inside_point: bool,
    inside_elevation: bool,
    inside_timestamp: bool,
    has_elevation: bool,
    has_timestamp: bool,
    current: TrackPoint,
    start_timestamp: Option<String>,
    end_timestamp: String,
    points: Vec<TrackPoint>,
}

impl View for TrackBuilder {
    type V = BuilderModel;

    closed spec fn view(&self) -> BuilderModel {
        BuilderModel {
            inside_point: self.inside_point,
            inside_elevation: self.inside_elevation,
            inside_timestamp: self.inside_timestamp,
            has_elevation: self.has_elevation,
            has_timestamp: self.has_timestamp,
            current: self.current,
            start_timestamp: match self.start_timestamp {
                Some(text) => Some(text@),
                None => None,
            },
            end_timestamp: self.end_timestamp@,
            points: self.points@,
        }
    }
}

/// A builder's result, by its model.
pub open spec fn builder_view(result: Result<TrackBuilder, TrackError>) -> Result<
    BuilderModel,
    TrackError,
> {
    match result {
        Ok(builder) => Ok(builder@),
        Err(error) => Err(error),
    }
}

/// A track's result, by its model.
pub open spec fn track_view(result: Result<RawTrack, TrackError>) -> Result<
    TrackModel,
    TrackError,
> {
    match result {
        Ok(track) => Ok(track@),
        Err(error) => Err(error),
    }
}

/// Whether `text` reads exactly `literal`.
fn text_is(text: &String, literal: &str) -> (same: bool)
    ensures
        same == (text@ == literal@),
{
    let other = String::from_str(literal);
    *text == other
}

/// The point that the attributes of a `trkpt` tag describe: the origin, with
/// the coordinates that `lon` and `lat` give.
pub fn point_from_attributes(attributes: &Vec<XmlAttribute>) -> (result: Result<
    TrackPoint,
    TrackError,
>)
    ensures
        result == apply_attributes(origin_point(), attribute_models(attributes@)),
{
    let ghost models = attribute_models(attributes@);
    let mut point = TrackPoint::origin();
    let mut i: usize = 0;
    assert(models.skip(0) =~= models);
    while i < attributes.len()
        invariant
            i <= attributes.len(),
            models == attribute_models(attributes@),
            apply_attributes(origin_point(), models) == apply_attributes(point, models.skip(i as int)),
        decreases attributes.len() - i,
    {
        let attribute = &attributes[i];
        proof {
            assert(models.skip(i as int)[0] == attribute@);
            assert(models.skip(i as int).drop_first() =~= models.skip(i + 1));
        }
        if text_is(&attribute.key, "lon") {
            match parse_decimal(attribute.value.as_str().as_bytes(), COORDINATE_DIGITS) {
                Ok(value) => {
                    point.longitude = value;
                },
                Err(error) => {
                    return Err(error);
                },
            }
        } else if text_is(&attribute.key, "lat") {
            match parse_decimal(attribute.value.as_str().as_bytes(), COORDINATE_DIGITS) {
                Ok(value) => {
                    point.latitude = value;
                },
                Err(error) => {
                    return Err(error);
                },
            }
        }
        i = i + 1;
    }
    Ok(point)
}

impl TrackBuilder {
    /// A builder that has seen nothing.
    pub fn new() -> (builder: TrackBuilder)
        ensures
            builder@ == initial(),
    {
        TrackBuilder {
            inside_point: false,
            inside_elevation: false,
            inside_timestamp: false,
            has_elevation: false,
            has_timestamp: false,
            current: TrackPoint::origin(),
            start_timestamp: None,
            end_timestamp: String::new(),
            points: Vec::new(),
        }
    }

    /// Takes one event in. An end of input changes nothing: the caller stops
    /// there and calls [`TrackBuilder::finish`].
    pub fn feed(self, event: &XmlEvent) -> (result: Result<TrackBuilder, TrackError>)
        ensures
            builder_view(result) == step(self@, event@),
    {
        let mut builder = self;
        match event {
            XmlEvent::Start { name, attributes } => {
                if text_is(name, "trkpt") {
                    match point_from_attributes(attributes) {
                        Ok(point) => {
                            builder.inside_point = true;
                            builder.has_elevation = false;
                            builder.has_timestamp = false;
                            builder.current = point;
                            Ok(builder)
                        },
                        Err(error) => Err(error),
                    }
                } else if text_is(name, "ele") {
                    builder.inside_elevation = true;
                    Ok(builder)
                } else if text_is(name, "time") {
                    builder.inside_timestamp = true;
                    Ok(builder)
                } else {
                    Ok(builder)
                }
            },
            XmlEvent::End { name } => {
                if text_is(name, "ele") {
                    builder.inside_elevation = false;
                    Ok(builder)
                } else if text_is(name, "time") {
                    builder.inside_timestamp = false;
                    Ok(builder)
                } else if text_is(name, "trkpt") {
                    if builder.has_elevation && builder.has_timestamp {
                        builder.inside_point = false;
                        builder.points.push(builder.current);
                        Ok(builder)
                    } else {
                        Err(TrackError::MissingRequiredField)
                    }
                } else {
                    Ok(builder)
                }
            },
            XmlEvent::Text { content } => {
                if builder.inside_elevation && builder.inside_point {
                    match parse_decimal(content.as_str().as_bytes(), ELEVATION_DIGITS) {
                        Ok(value) => {
                            builder.has_elevation = true;
                            builder.current.elevation = value;
                            Ok(builder)
                        },
                        Err(error) => Err(error),
                    }
                } else if builder.inside_timestamp && builder.inside_point {
                    builder.has_timestamp = true;
                    if builder.start_timestamp.is_none() {
                        builder.start_timestamp = Some(content.clone());
                    }
                    builder.end_timestamp = content.clone();
                    Ok(builder)
                } else {
                    Ok(builder)
                }
            },
            XmlEvent::Other => Ok(builder),
            XmlEvent::Malformed { offset } => Err(TrackError::MalformedMarkup { offset: *offset }),
            XmlEvent::Eof => Ok(builder),
        }
    }

    /// The track gathered so far. Fails with `EmptyTrack` where no point was
    /// closed, and with `MissingRequiredField` where no timestamp was met.
    pub fn finish(self) -> (result: Result<RawTrack, TrackError>)
        ensures
            track_view(result) == finish(self@),
            result is Ok ==> result->Ok_0.points.len() > 0,
    {
        if self.points.len() == 0 {
            return Err(TrackError::EmptyTrack);
        }
        match self.start_timestamp {
            Some(start) => Ok(
                RawTrack {
                    start_timestamp: start,
                    end_timestamp: self.end_timestamp,
                    points: self.points,
                },
            ),
            None => Err(TrackError::MissingRequiredField),
        }
    }
}

/// The models of a run of events, in order.
pub open spec fn event_models(events: Seq<XmlEvent>) -> Seq<EventModel> {
    Seq::new(events.len(), |i: int| events[i]@)
}

/// Builds the track that a run of events describes. Reading stops at the
/// first end of input; what follows it is not looked at.
pub fn parse_events(events: &Vec<XmlEvent>) -> (result: Result<RawTrack, TrackError>)
    ensures
        track_view(result) == track_of(event_models(events@)),
        result is Ok ==> result->Ok_0.points.len() > 0,
{
    let ghost models = event_models(events@);
    let mut builder = TrackBuilder::new();
    let mut i: usize = 0;
    assert(models.skip(0) =~= models);
    while i < events.len()
        invariant
            i <= events.len(),
            models == event_models(events@),
            run(initial(), models) == run(builder@, models.skip(i as int)),
        decreases events.len() - i,
    {
        let event = &events[i];
        proof {
            assert(models.skip(i as int)[0] == event@);
            assert(models.skip(i as int).drop_first() =~= models.skip(i + 1));
        }
        if let XmlEvent::Eof = event {
            return builder.finish();
        }
        match builder.feed(event) {
            Ok(next) => {
                builder = next;
            },
            Err(error) => {
                return Err(error);
            },
        }
        i = i + 1;
    }
    builder.finish()
}

/// Reads a document and builds the track that it describes.
pub fn parse_document(document: &[u8]) -> (result: Result<RawTrack, TrackError>)
    ensures
        track_view(result) == track_of(document_events(document@)),
        result is Ok ==> result->Ok_0.points.len() > 0,
{
    let mut reader = open_reader(document);
    let mut builder = TrackBuilder::new();
    loop
        invariant
            ends_once(pending_events(reader)),
            run(initial(), document_events(document@)) == run(builder@, pending_events(reader)),
        decreases pending_events(reader).len(),
    {
        let ghost pending = pending_events(reader);
        let event = next_event(&mut reader);
        proof {
            assert(pending.skip(1) =~= pending.drop_first());
        }
        match event {
            XmlEvent::Eof => {
                return builder.finish();
            },
            XmlEvent::Malformed { offset } => {
                return Err(TrackError::MalformedMarkup { offset });
            },
            _ => {},
        }
        match builder.feed(&event) {
            Ok(next) => {
                builder = next;
            },
            Err(error) => {
                return Err(error);
            },
        }
        proof {
            assert(!is_final(pending[0]));
            assert(pending.len() > 1);
            assert(pending.skip(1).last() == pending.last());
        }
    }
}

/// Whether the event closes a track point.
pub open spec fn closes_point(event: EventModel) -> bool {
    event matches EventModel::End { name } && name == "trkpt"@
}

/// Events that close no point leave the gathered points as they were.
pub proof fn lemma_points_need_a_closing_tag(state: BuilderModel, events: Seq<EventModel>)
    requires
        forall|i: int| 0 <= i < events.len() ==> !closes_point(#[trigger] events[i]),
    ensures
        run(state, events) matches Ok(after) ==> after.points == state.points,
    decreases events.len(),
{
    if events.len() == 0 || events[0] is Eof {
    } else {
        assert(!closes_point(events[0]));
        match step(state, events[0]) {
            Ok(next) => {
                assert(next.points == state.points);
                let rest = events.drop_first();
                assert forall|i: int| 0 <= i < rest.len() implies !closes_point(
                    #[trigger] rest[i],
                ) by {
                    assert(rest[i] == events[i + 1]);
                }
                lemma_points_need_a_closing_tag(next, rest);
            },
            Err(_) => {},
        }
    }
}

/// A document that closes no track point gives no track; where reading it
/// raises no other error, the outcome is `EmptyTrack`.
pub proof fn lemma_no_point_is_an_empty_track(events: Seq<EventModel>)
    requires
        forall|i: int| 0 <= i < events.len() ==> !closes_point(#[trigger] events[i]),
    ensures
        track_of(events) is Err,
        run(initial(), events) is Ok ==> track_of(events) == Err::<TrackModel, TrackError>(
            TrackError::EmptyTrack,
        ),
{
    lemma_points_need_a_closing_tag(initial(), events);
}

} // verus!
