//! The boundary to the external tokenizer: xml-rs pulls Start/Characters/End
//! events out of the document text; they are reduced to plain-value tokens
//! for the verified tree builder.

use vstd::prelude::*;
use crate::builder::XmlToken;

verus! {

/// Holds xml-rs's pull parser so a reader can flow through verified code;
/// Verus sees nothing inside it.
#[verifier::external_body]
struct XmlReader<'a> {
    inner: xml::reader::EventReader<&'a [u8]>,
}

/// One pull from the reader: a token the tree builder consumes, an event it
/// ignores, or the end of the stream.
pub enum TokenStep {
    Tok(XmlToken),
    Skip,
    Done,
}

/// Relies on xml-rs `EventReader::from_str`: makes a pull reader over the
/// document text.
#[verifier::external_body]
fn reader_from_str<'a>(source: &'a str) -> (r: XmlReader<'a>) {
    XmlReader { inner: xml::reader::EventReader::from_str(source) }
}

/// Relies on xml-rs `EventReader::next`: pulls the next event. The opening,
/// character and closing events the tree builder consumes come out as plain
/// values — element names reduced to their local parts, attribute names as
/// xml-rs prints them, namespace and prefix included where bound;
/// `EndDocument` and errors end the stream (xml-rs repeats them on every
/// later pull); every other event is skipped.
#[verifier::external_body]
fn next_token_step(reader: &mut XmlReader<'_>) -> (r: TokenStep) {
    match reader.inner.next() {
        Ok(xml::reader::XmlEvent::StartElement { name, attributes, .. }) => TokenStep::Tok(
            XmlToken::Start(
                name.local_name,
                attributes.into_iter().map(|a| (a.name.to_string(), a.value)).collect(),
            ),
        ),
        Ok(xml::reader::XmlEvent::Characters(text)) => TokenStep::Tok(XmlToken::Text(text)),
        Ok(xml::reader::XmlEvent::EndElement { name }) => TokenStep::Tok(
            XmlToken::End(name.local_name),
        ),
        Ok(xml::reader::XmlEvent::EndDocument) => TokenStep::Done,
        Ok(_) => TokenStep::Skip,
        Err(_) => TokenStep::Done,
    }
}

/// Tokenizes a whole document, pulling events until the stream ends. What
/// comes back depends on the external tokenizer, so nothing is promised of
/// the list; the tree builder states exactly what it makes of any token
/// list.
pub fn tokenize(xml: &str) -> Vec<XmlToken> {
    let mut reader = reader_from_str(xml);
    let mut out: Vec<XmlToken> = Vec::new();
    // A finite document yields finitely many events before `Done`; the
    // counter only gives the verifier a bound.
    let mut fuel: usize = usize::MAX;
    while fuel > 0
        decreases fuel,
    {
        match next_token_step(&mut reader) {
            TokenStep::Tok(t) => {
                out.push(t);
            },
            TokenStep::Skip => {},
            TokenStep::Done => {
                return out;
            },
        }
        fuel -= 1;
    }
    out
}

} // verus!
