//! What a message says: its plain text and, where it has one, its HTML
//! rendering. The shapes of chat events are kept here as plain values, so
//! that the rule "which events have a body" can be stated and proved.

use vstd::prelude::*;

verus! {

/// The text of a message, as a value of the mathematics.
pub ghost struct BodyText {
    pub plain: Seq<char>,
    pub html: Option<Seq<char>>,
}

/// The text of a message: plain, and in HTML where the sender gave it.
#[derive(Debug)]
pub struct Body {
    pub plain: String,
    pub html: Option<String>,
}

impl View for Body {
    type V = BodyText;

    open spec fn view(&self) -> BodyText {
        BodyText {
            plain: self.plain@,
            html: match self.html {
                Some(html) => Some(html@),
                None => None,
            },
        }
    }
}

impl Clone for Body {
    fn clone(&self) -> (copy: Self)
        ensures
            copy == *self,
    {
        Body {
            plain: self.plain.clone(),
            html: match &self.html {
                Some(html) => Some(html.clone()),
                None => None,
            },
        }
    }
}

/// The texts of a list of bodies.
pub open spec fn body_texts(bodies: Seq<Body>) -> Seq<BodyText> {
    Seq::new(bodies.len(), |i: int| bodies[i]@)
}

/// The markup that a formatted body is written in.
#[derive(Clone, Copy, Debug, PartialEq, Eq, Structural)]
pub enum MessageFormat {
    /// HTML.
    Html,
    /// Any other markup.
    Custom,
}

/// A rendering of a message in some markup.
#[derive(Debug)]
pub struct FormattedBody {
    pub format: MessageFormat,
    pub body: String,
}

/// The content of a text message.
#[derive(Debug)]
pub struct TextMessage {
    pub body: String,
    pub formatted: Option<FormattedBody>,
}

/// An event of a room, as far as its text goes.
#[derive(Debug)]
pub enum RoomEvent {
    /// A text message that was not redacted.
    Text(TextMessage),
    /// Anything else: another kind of message, a redacted one, a state
    /// event, an event that could not be read.
    Other,
}

/// Something that may carry the text of a message.
pub trait HasBody {
    /// The text that it carries, if any.
    spec fn body(&self) -> Option<BodyText>;

    /// The text that it carries, if any.
    fn get_body(&self) -> (body: Option<Body>)
        ensures
            match self.body() {
                Some(text) => body matches Some(found) && found@ == text,
                None => body is None,
            },
    ;
}

impl HasBody for TextMessage {
    /// A text message always has a body. Its HTML is the formatted body,
    /// where that is written in HTML.
    open spec fn body(&self) -> Option<BodyText> {
        Some(
            BodyText {
                plain: self.body@,
                html: match self.formatted {
                    Some(formatted) if formatted.format == MessageFormat::Html => Some(
                        formatted.body@,
                    ),
                    _ => None,
                },
            },
        )
    }

    fn get_body(&self) -> (body: Option<Body>) {
        match &self.formatted {
            Some(formatted) => match formatted.format {
                MessageFormat::Html => Some(
                    Body { plain: self.body.clone(), html: Some(formatted.body.clone()) },
                ),
                MessageFormat::Custom => Some(Body { plain: self.body.clone(), html: None }),
            },
            None => Some(Body { plain: self.body.clone(), html: None }),
        }
    }
}

impl HasBody for RoomEvent {
    /// Of all events only text messages have a body.
    open spec fn body(&self) -> Option<BodyText> {
        match self {
            RoomEvent::Text(message) => message.body(),
            RoomEvent::Other => None,
        }
    }

    fn get_body(&self) -> (body: Option<Body>) {
        match self {
            RoomEvent::Text(message) => message.get_body(),
            RoomEvent::Other => None,
        }
    }
}

/// The body of the first of `events` that has one.
pub open spec fn first_body_of(events: Seq<RoomEvent>) -> Option<BodyText>
    decreases events.len(),
{
    if events.len() == 0 {
        None
    } else {
        match events.first().body() {
            Some(text) => Some(text),
            None => first_body_of(events.drop_first()),
        }
    }
}

/// The body of the first of `events` that has one: the message that a new
/// message answers, where `events` are those before it, nearest first.
pub fn first_body(events: &Vec<RoomEvent>) -> (body: Option<Body>)
    ensures
        match first_body_of(events@) {
            Some(text) => body matches Some(found) && found@ == text,
            None => body is None,
        },
{
    let mut i: usize = 0;
    proof {
        assert(events@.skip(0) == events@);
    }
    while i < events.len()
        invariant
            i <= events.len(),
            first_body_of(events@) == first_body_of(events@.skip(i as int)),
        decreases events.len() - i,
    {
        proof {
            let rest = events@.skip(i as int);
            assert(rest.first() == events@[i as int]);
            assert(rest.drop_first() == events@.skip(i + 1));
        }
        match events[i].get_body() {
            Some(body) => {
                return Some(body);
            },
            None => {},
        }
        i += 1;
    }
    proof {
        assert(events@.skip(i as int).len() == 0);
    }
    None
}

} // verus!
