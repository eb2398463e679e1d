//! The events of an XML document, as `quick_xml` reads them.
//!
//! The reader itself is opaque to the verifier. What it yields is named by
//! `xml_events`, and everything that is done with the events is verified.

use quick_xml::events::Event;
use vstd::prelude::*;

verus! {

/// One event of a document, holding what the manifest parser reads of it.
#[derive(Debug)]
pub enum XmlToken {
    /// An opening tag, with its name.
    Start(String),
    /// A closing tag, with its name.
    End(String),
    /// Character data, unescaped.
    Text(String),
    /// Anything else: an empty element, a comment, a declaration and so on.
    Other,
    /// The end of the document.
    Eof,
    /// The document is not well formed; the reader's message.
    Failure(String),
}

/// An `XmlToken`, as plain text.
pub ghost enum XmlEvent {
    Start(Seq<char>),
    End(Seq<char>),
    Text(Seq<char>),
    Other,
    Eof,
    Failure(Seq<char>),
}

impl XmlEvent {
    /// Whether reading stops at this event.
    pub open spec fn is_last(self) -> bool {
        self is Eof || self is Failure
    }
}

impl View for XmlToken {
    type V = XmlEvent;

    open spec fn view(&self) -> XmlEvent {
        match *self {
            XmlToken::Start(n) => XmlEvent::Start(n@),
            XmlToken::End(n) => XmlEvent::End(n@),
            XmlToken::Text(t) => XmlEvent::Text(t@),
            XmlToken::Other => XmlEvent::Other,
            XmlToken::Eof => XmlEvent::Eof,
            XmlToken::Failure(m) => XmlEvent::Failure(m@),
        }
    }
}

/// The views of a sequence of tokens.
pub open spec fn token_views(v: Seq<XmlToken>) -> Seq<XmlEvent> {
    v.map_values(|t: XmlToken| t@)
}

/// `quick_xml::Reader`: a reader is carried through and never looked into.
#[verifier::external_type_specification]
#[verifier::external_body]
#[verifier::reject_recursive_types(R)]
pub struct ExReader<R>(quick_xml::Reader<R>);

/// The events that `quick_xml` reads from `text` with text trimming on, up
/// to and including the first end of document or failure.
pub uninterp spec fn xml_events(text: Seq<char>) -> Seq<XmlEvent>;

/// The events that a reader has yet to yield, up to and including the first
/// end of document or failure.
pub uninterp spec fn pending_events(reader: quick_xml::Reader<&[u8]>) -> Seq<XmlEvent>;

/// `quick_xml::Reader::from_str`, with `Config::trim_text(true)`: a reader
/// at the start of `xml`, which has all the events of `xml` before it.
#[verifier::external_body]
fn open_reader<'a>(xml: &'a str) -> (reader: quick_xml::Reader<&'a [u8]>)
    ensures
        pending_events(reader) == xml_events(xml@),
{
    let mut reader = quick_xml::Reader::from_str(xml);
    reader.config_mut().trim_text(true);
    reader
}

/// `quick_xml::Reader::read_event`: hands out the first pending event. After
/// an event at which reading does not stop, the rest is still pending. A
/// reader over text in memory always has an event left, the end of the
/// document if nothing else.
#[verifier::external_body]
fn next_token<'a>(reader: &mut quick_xml::Reader<&'a [u8]>) -> (token: XmlToken)
    ensures
        pending_events(*old(reader)).len() > 0,
        token@ == pending_events(*old(reader))[0],
        token@.is_last() ==> pending_events(*old(reader)).len() == 1,
        !token@.is_last() ==> pending_events(*final(reader)) == pending_events(
            *old(reader),
        ).skip(1),
{
    match reader.read_event() {
        Ok(Event::Start(e)) => XmlToken::Start(String::from_utf8_lossy(e.name().as_ref()).to_string()),
        Ok(Event::End(e)) => XmlToken::End(String::from_utf8_lossy(e.name().as_ref()).to_string()),
        Ok(Event::Text(e)) => XmlToken::Text(e.unescape().unwrap_or_default().to_string()),
        Ok(Event::Eof) => XmlToken::Eof,
        Ok(_) => XmlToken::Other,
        Err(e) => XmlToken::Failure(e.to_string()),
    }
}

/// All events of `xml`, up to and including the first end of document or
/// failure.
pub fn read_tokens(xml: &str) -> (tokens: Vec<XmlToken>)
    ensures
        token_views(tokens@) == xml_events(xml@),
{
    let mut reader = open_reader(xml);
    let mut tokens: Vec<XmlToken> = Vec::new();
    let ghost all = xml_events(xml@);
    proof {
        assert(all.skip(0) == all);
        assert(token_views(tokens@) =~= all.take(0));
    }
    loop
        invariant
            all == xml_events(xml@),
            tokens.len() <= all.len(),
            token_views(tokens@) == all.take(tokens.len() as int),
            pending_events(reader) == all.skip(tokens.len() as int),
        decreases all.len() - tokens.len(),
    {
        let ghost n = tokens.len() as int;
        let ghost before = token_views(tokens@);
        let token = next_token(&mut reader);
        let stop = match &token {
            XmlToken::Eof => true,
            XmlToken::Failure(_) => true,
            _ => false,
        };
        proof {
            assert(all.skip(n)[0] == all[n]);
            assert(all.take(n + 1) == all.take(n).push(all[n]));
            assert(token_views(tokens@.push(token)) =~= before.push(token@));
            assert(all.skip(n).skip(1) == all.skip(n + 1));
        }
        tokens.push(token);
        if stop {
            proof {
                assert(all.skip(n).len() == 1);
                assert(all.take(n + 1) == all);
            }
            return tokens;
        }
    }
}

} // verus!
