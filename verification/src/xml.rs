//! Writing XML with `quick_xml`: the writer, the events that documents are
//! made of, and what each of them puts into the writer.
//!
//! The writer is `quick_xml`'s own. Nothing here is proved of it: the
//! contracts of the functions marked `external_body` say what its source
//! shows, and the proofs of the library rest on them.
//!
//! The writer writes into a `Vec<u8>` behind a `Cursor`. A write of
//! `quick_xml` returns what the write into that buffer returns, and that
//! fails on one thing only: a cursor whose position does not fit the
//! buffer's index. A writer that `is_plain` stands at the end of its buffer,
//! so its writes succeed.

use vstd::prelude::*;
use quick_xml::events::{BytesEnd, BytesStart, BytesText, Event};
use quick_xml::Writer;
use std::io::Cursor;

verus! {

/// `quick_xml::Writer`, of which nothing is seen here but what the
/// functions below say.
#[verifier::external_type_specification]
#[verifier::external_body]
#[verifier::reject_recursive_types(W)]
pub struct ExWriter<W>(Writer<W>);

/// `std::io::Cursor`, the buffer that the writer writes to.
#[verifier::external_type_specification]
#[verifier::external_body]
#[verifier::reject_recursive_types(T)]
pub struct ExCursor<T>(Cursor<T>);

/// The text that a writer holds in its buffer.
pub uninterp spec fn emitted(w: Writer<Cursor<Vec<u8>>>) -> Seq<char>;

/// The writer is as `new_writer` makes it and as the functions of this
/// module leave it: it adds no indentation of its own, it writes at the end
/// of its buffer, and its buffer holds UTF-8.
pub uninterp spec fn is_plain(w: Writer<Cursor<Vec<u8>>>) -> bool;

/// The start tag of the element `name`.
pub open spec fn start_tag(name: Seq<char>) -> Seq<char> {
    seq!['<'] + name + seq!['>']
}

/// The end tag of the element `name`.
pub open spec fn end_tag(name: Seq<char>) -> Seq<char> {
    seq!['<', '/'] + name + seq!['>']
}

/// What stands for the character `c` in the text of an element.
pub open spec fn escaped_char(c: char) -> Seq<char> {
    if c == '<' {
        seq!['&', 'l', 't', ';']
    } else if c == '>' {
        seq!['&', 'g', 't', ';']
    } else if c == '&' {
        seq!['&', 'a', 'm', 'p', ';']
    } else if c == '\'' {
        seq!['&', 'a', 'p', 'o', 's', ';']
    } else if c == '"' {
        seq!['&', 'q', 'u', 'o', 't', ';']
    } else if c == '\r' {
        seq!['&', '#', '1', '3', ';']
    } else {
        seq![c]
    }
}

/// `text` as it stands in an element: each character that XML reserves, and
/// the carriage return, replaced by its reference, all others kept.
pub open spec fn escaped(text: Seq<char>) -> Seq<char>
    decreases text.len(),
{
    if text.len() == 0 {
        Seq::empty()
    } else {
        escaped(text.drop_last()) + escaped_char(text.last())
    }
}

/// `c` is written as itself.
pub open spec fn is_literal_char(c: char) -> bool {
    c != '<' && c != '>' && c != '&' && c != '\'' && c != '"' && c != '\r'
}

/// Text without a character that is replaced stays as it is.
pub proof fn lemma_escaped_literal(text: Seq<char>)
    requires
        forall|i: int| 0 <= i < text.len() ==> is_literal_char(#[trigger] text[i]),
    ensures
        escaped(text) == text,
    decreases text.len(),
{
    if text.len() > 0 {
        lemma_escaped_literal(text.drop_last());
    }
}

/// `Writer::new`, over a `Cursor` on an empty `Vec<u8>`: the new writer
/// holds no text and adds no indentation.
#[verifier::external_body]
pub(crate) fn new_writer() -> (w: Writer<Cursor<Vec<u8>>>)
    ensures
        is_plain(w),
        emitted(w) == Seq::<char>::empty(),
{
    Writer::new(Cursor::new(Vec::new()))
}

/// `Writer::write_event` with `Event::Start` of `BytesStart::new(name)`: it
/// succeeds, and `<`, the name and `>` were added to the text. A name made
/// this way has no attributes, and it is written as it is given.
#[verifier::external_body]
pub(crate) fn write_start(w: &mut Writer<Cursor<Vec<u8>>>, name: &str) -> (r: Result<
    (),
    std::io::Error,
>)
    requires
        is_plain(*old(w)),
    ensures
        r is Ok,
        is_plain(*final(w)),
        emitted(*final(w)) == emitted(*old(w)) + start_tag(name@),
{
    w.write_event(Event::Start(BytesStart::new(name)))
}

/// `Writer::write_event` with `Event::End` of `BytesEnd::new(name)`: it
/// succeeds, and `</`, the name and `>` were added to the text.
#[verifier::external_body]
pub(crate) fn write_end(w: &mut Writer<Cursor<Vec<u8>>>, name: &str) -> (r: Result<
    (),
    std::io::Error,
>)
    requires
        is_plain(*old(w)),
    ensures
        r is Ok,
        is_plain(*final(w)),
        emitted(*final(w)) == emitted(*old(w)) + end_tag(name@),
{
    w.write_event(Event::End(BytesEnd::new(name)))
}

/// `Writer::write_event` with `Event::Text` of `BytesText::new(text)`.
/// `BytesText::new` escapes its argument with `quick_xml::escape::escape`,
/// which replaces `<`, `>`, `&`, `'`, `"` and the carriage return; the write
/// succeeds, and the escaped text was added.
#[verifier::external_body]
pub(crate) fn write_text(w: &mut Writer<Cursor<Vec<u8>>>, text: &str) -> (r: Result<
    (),
    std::io::Error,
>)
    requires
        is_plain(*old(w)),
    ensures
        r is Ok,
        is_plain(*final(w)),
        emitted(*final(w)) == emitted(*old(w)) + escaped(text@),
{
    w.write_event(Event::Text(BytesText::new(text)))
}

/// `Writer::into_inner`, and the buffer of the `Cursor` that it gives back,
/// as a `String`: the text that the writer held. The buffer of a plain
/// writer holds UTF-8, so that `String::from_utf8` accepts it.
#[verifier::external_body]
pub(crate) fn into_text(w: Writer<Cursor<Vec<u8>>>) -> (text: String)
    requires
        is_plain(w),
    ensures
        text@ == emitted(w),
{
    String::from_utf8(w.into_inner().into_inner()).unwrap()
}

} // verus!
