//! The XML tokens the configuration grammar reads, pulled from quick-xml.
use vstd::prelude::*;

verus! {

/// One attribute: its name and raw value.
#[derive(Debug, Clone)]
pub struct XmlAttr {
    pub key: String,
    pub value: String,
}

/// An XML token as the grammar sees it: element names and attributes as
/// text (`None` for a malformed attribute list), end tags by name.
#[derive(Debug, Clone)]
pub enum Token {
    Start { name: String, attrs: Option<Vec<XmlAttr>> },
    Empty { name: String, attrs: Option<Vec<XmlAttr>> },
    End { name: String },
    Eof,
    Other,
    Error { message: String },
    /// The document had more tokens than characters.
    Truncated,
}

/// The `i`-th token quick-xml reads from a document (counting from 0).
pub uninterp spec fn xml_token_at(doc: Seq<char>, i: nat) -> Token;

#[verifier::external_type_specification]
#[verifier::external_body]
#[verifier::reject_recursive_types(R)]
pub struct ExXmlReader<R>(quick_xml::Reader<R>);

/// A reader over a document and how many tokens it has handed out.
pub struct XmlTokens<'a> {
    reader: quick_xml::Reader<&'a [u8]>,
    doc: &'a str,
    read: usize,
}

/// Relies on `quick_xml::Reader::from_str`: a reader at the start of the document.
#[verifier::external_body]
fn open_tokens<'a>(xml: &'a str) -> (r: XmlTokens<'a>)
    ensures
        r.doc@ == xml@,
        r.read == 0,
{
    XmlTokens { reader: quick_xml::Reader::from_str(xml), doc: xml, read: 0 }
}

/// Relies on `quick_xml::Reader::read_event`: the next token of the document,
/// converted one for one. `read` counts the tokens handed out, and moves on
/// with the reader.
#[verifier::external_body]
fn read_token<'a>(t: &mut XmlTokens<'a>) -> (r: Token)
    requires
        old(t).read < usize::MAX,
    ensures
        r == xml_token_at(old(t).doc@, old(t).read as nat),
        final(t).doc == old(t).doc,
        final(t).read == old(t).read + 1,
{
    t.read = t.read + 1;
    match t.reader.read_event() {
        Ok(quick_xml::events::Event::Start(e)) => Token::Start { name: element_name(&e), attrs: element_attrs(&e) },
        Ok(quick_xml::events::Event::Empty(e)) => Token::Empty { name: element_name(&e), attrs: element_attrs(&e) },
        Ok(quick_xml::events::Event::End(e)) => Token::End { name: String::from_utf8_lossy(e.name().as_ref()).to_string() },
        Ok(quick_xml::events::Event::Eof) => Token::Eof,
        Ok(_) => Token::Other,
        Err(e) => Token::Error { message: e.to_string() },
    }
}

#[verifier::external_type_specification]
#[verifier::external_body]
pub struct ExBytesStart<'a>(quick_xml::events::BytesStart<'a>);

/// Relies on `quick_xml::events::BytesStart::name`: the element's name as text.
#[verifier::external_body]
fn element_name<'a>(e: &quick_xml::events::BytesStart<'a>) -> String {
    String::from_utf8_lossy(e.name().as_ref()).to_string()
}

/// Relies on `quick_xml::events::BytesStart::attributes`: the attributes in
/// document order with raw values as text; `None` where the list is malformed.
#[verifier::external_body]
fn element_attrs<'a>(e: &quick_xml::events::BytesStart<'a>) -> Option<Vec<XmlAttr>> {
    e.attributes()
        .map(|a| a.ok().map(|a| XmlAttr { key: String::from_utf8_lossy(a.key.as_ref()).to_string(), value: String::from_utf8_lossy(&a.value).to_string() }))
        .collect()
}

/// Relies on `quick_xml::Reader::buffer_position`: how many bytes the reader has consumed.
#[verifier::external_body]
fn reader_position<'a>(t: &XmlTokens<'a>) -> usize {
    t.reader.buffer_position()
}

pub open spec fn is_last_token(t: Token) -> bool {
    t is Eof || t is Error
}

/// The tokens of a document from the `i`-th on, up to and including the
/// first `Eof` or `Error`; `Truncated` past one token per character.
pub open spec fn tokens_from(doc: Seq<char>, i: nat) -> Seq<Token>
    decreases doc.len() + 1 - i,
{
    if i > doc.len() {
        seq![Token::Truncated]
    } else {
        let t = xml_token_at(doc, i);
        if is_last_token(t) {
            seq![t]
        } else {
            seq![t] + tokens_from(doc, i + 1)
        }
    }
}

/// The tokens of a document.
pub open spec fn doc_tokens(doc: Seq<char>) -> Seq<Token> {
    tokens_from(doc, 0)
}

/// The document's tokens in order, each with the byte position after it.
pub fn xml_tokens(xml: &str) -> (r: Vec<(Token, usize)>)
    requires
        xml@.len() < usize::MAX,
    ensures
        r@.map_values(|p: (Token, usize)| p.0) == doc_tokens(xml@),
{
    let limit = xml.unicode_len();
    let mut t = open_tokens(xml);
    let mut out: Vec<(Token, usize)> = Vec::new();
    loop
        invariant
            t.doc@ == xml@,
            t.read <= limit,
            limit == xml@.len(),
            limit < usize::MAX,
            out@.map_values(|p: (Token, usize)| p.0) + tokens_from(xml@, t.read as nat) == doc_tokens(xml@),
        decreases limit - t.read,
    {
        let ghost k = t.read as nat;
        let at_limit = t.read == limit;
        let tok = read_token(&mut t);
        let pos = reader_position(&t);
        let last = match tok {
            Token::Eof => true,
            Token::Error { .. } => true,
            _ => false,
        };
        let ghost before = out@.map_values(|p: (Token, usize)| p.0);
        out.push((tok, pos));
        assert(out@.map_values(|p: (Token, usize)| p.0) =~= before.push(tok));
        if last {
            assert(tokens_from(xml@, k) == seq![tok]);
            assert(before.push(tok) =~= before + seq![tok]);
            return out;
        }
        assert(tokens_from(xml@, k) == seq![tok] + tokens_from(xml@, k + 1));
        assert(before + tokens_from(xml@, k) =~= before.push(tok) + tokens_from(xml@, k + 1));
        if at_limit {
            assert(tokens_from(xml@, k + 1) == seq![Token::Truncated]);
            let ghost b2 = out@.map_values(|p: (Token, usize)| p.0);
            out.push((Token::Truncated, pos));
            assert(out@.map_values(|p: (Token, usize)| p.0) =~= b2 + seq![Token::Truncated]);
            return out;
        }
    }
}

} // verus!
