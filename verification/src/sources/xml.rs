//! Records from an XML feed. The document is tokenized by `quick_xml`;
//! which tokens make a record is decided here: every element named by the
//! source's `record_tag` is one record, and text inside it is assigned to
//! the configured field whose selector names the enclosing tag.

use vstd::prelude::*;
use quick_xml::events::Event;
use vstd::utf8::{decode_utf8, encode_utf8, encode_utf8_decode_utf8, valid_utf8};
use crate::config::{names_distinct, FieldMapping, FieldType, XmlConfig};
use crate::text::{push_str, str_eq, string_of};
use super::{
    coerce, coerce_spec, into_decimal_spec, into_i64_spec, into_string_spec, result_view, Record,
    RecordValue, RecordValueView, RecordView,
};

verus! {

#[verifier::external_type_specification]
#[verifier::external_body]
#[verifier::reject_recursive_types(R)]
pub struct ExReader<R>(quick_xml::Reader<R>);

/// What record extraction reads of one event of the XML reader: tag names
/// of start and end tags, the raw bytes of text and CDATA, the end of the
/// document, and every other event.
pub enum XmlEvent {
    Start(Vec<u8>),
    End(Vec<u8>),
    Text(Vec<u8>),
    CData(Vec<u8>),
    Eof,
    Other,
}

pub enum XmlToken {
    Start(Seq<u8>),
    End(Seq<u8>),
    Text(Seq<u8>),
    CData(Seq<u8>),
    Eof,
    Other,
}

impl View for XmlEvent {
    type V = XmlToken;

    open spec fn view(&self) -> XmlToken {
        match self {
            XmlEvent::Start(t) => XmlToken::Start(t@),
            XmlEvent::End(t) => XmlToken::End(t@),
            XmlEvent::Text(b) => XmlToken::Text(b@),
            XmlEvent::CData(b) => XmlToken::CData(b@),
            XmlEvent::Eof => XmlToken::Eof,
            XmlEvent::Other => XmlToken::Other,
        }
    }
}

/// The outcomes of reading events one after the other from a
/// `quick_xml::Reader` made by `from_str(content)` with `trim_text(true)`,
/// up to and including the first end of document or error. An error holds
/// its message followed by those of its causes, each after `: `, as
/// `anyhow` writes an error chain in its alternate form.
pub uninterp spec fn xml_events(content: Seq<char>) -> Seq<Result<XmlToken, Seq<char>>>;

/// The message of the error `quick_xml`'s UTF-8 decoder gives for `bytes`,
/// with its causes, as `anyhow` writes an error chain in its alternate form.
pub uninterp spec fn xml_decode_error(bytes: Seq<u8>) -> Seq<char>;

/// What `quick_xml::escape::unescape` gives for `text`: the text with
/// entity and character references resolved, or the message of its error
/// with its causes, as `anyhow` writes an error chain in its alternate form.
pub uninterp spec fn xml_unescape(text: Seq<char>) -> Result<Seq<char>, Seq<char>>;

pub open spec fn is_terminal(r: Result<XmlToken, Seq<char>>) -> bool {
    r is Err || r == Ok::<XmlToken, Seq<char>>(XmlToken::Eof)
}

/// A sequence of reader outcomes that ends with the first end of document
/// or error and has no more outcomes than the input has characters, plus one.
pub open spec fn well_formed_stream(s: Seq<Result<XmlToken, Seq<char>>>, input_len: nat) -> bool {
    &&& 1 <= s.len() <= input_len + 1
    &&& is_terminal(s.last())
    &&& forall|i: int| 0 <= i < s.len() - 1 ==> !is_terminal(#[trigger] s[i])
}

/// A `quick_xml` reader over a document, with the outcomes it has yet to
/// give.
pub struct XmlReader<'a> {
    reader: quick_xml::Reader<&'a [u8]>,
    pending: Ghost<Seq<Result<XmlToken, Seq<char>>>>,
}

impl<'a> XmlReader<'a> {
    pub closed spec fn pending(&self) -> Seq<Result<XmlToken, Seq<char>>> {
        self.pending@
    }

    /// `quick_xml::Reader::from_str(content)` with `trim_text(true)`. The
    /// reader gives the outcomes `xml_events(content)` in order; reading
    /// ends with the end of the document or the first error, and every event
    /// before that consumes at least one character of the input (empty text
    /// is skipped when trimming).
    #[verifier::external_body]
    pub(crate) fn from_str(content: &'a str) -> (res: Self)
        ensures
            res.pending() == xml_events(content@),
            well_formed_stream(res.pending(), content@.len()),
    {
        let mut reader = quick_xml::Reader::from_str(content);
        reader.config_mut().trim_text(true);
        XmlReader { reader, pending: Ghost(xml_events(content@)) }
    }

    /// `Reader::read_event`, its event reduced to what record extraction
    /// reads: tag names (`BytesStart::name`, `BytesEnd::name`) and raw
    /// text and CDATA bytes (`into_inner`); errors as their message with its causes.
    #[verifier::external_body]
    pub(crate) fn read_event(&mut self) -> (res: Result<XmlEvent, String>)
        ensures
            old(self).pending().len() > 0 ==> result_view(res) == old(self).pending()[0]
                && final(self).pending() == old(self).pending().drop_first(),
    {
        self.pending = Ghost(self.pending@.drop_first());
        match self.reader.read_event() {
            Ok(Event::Start(e)) => Ok(XmlEvent::Start(e.name().into_inner().to_vec())),
            Ok(Event::End(e)) => Ok(XmlEvent::End(e.name().into_inner().to_vec())),
            Ok(Event::Text(e)) => Ok(XmlEvent::Text(e.into_inner().into_owned())),
            Ok(Event::CData(e)) => Ok(XmlEvent::CData(e.into_inner().into_owned())),
            Ok(Event::Eof) => Ok(XmlEvent::Eof),
            Ok(_) => Ok(XmlEvent::Other),
            Err(e) => Err(format!("{:#}", anyhow::Error::new(e))),
        }
    }

    /// `Decoder::decode` of the reader's decoder, which for a reader made
    /// from a `&str` decodes UTF-8: it succeeds exactly on valid UTF-8 and
    /// then gives the characters it encodes.
    #[verifier::external_body]
    pub(crate) fn decode(&self, bytes: &Vec<u8>) -> (res: Result<String, String>)
        ensures
            match res {
                Ok(s) => valid_utf8(bytes@) && s@ == decode_utf8(bytes@),
                Err(e) => !valid_utf8(bytes@) && e@ == xml_decode_error(bytes@),
            },
    {
        match self.reader.decoder().decode(bytes.as_slice()) {
            Ok(s) => Ok(s.into_owned()),
            Err(e) => Err(format!("{:#}", anyhow::Error::new(e))),
        }
    }
}

/// `quick_xml::escape::unescape`: resolves `&...;` references; text
/// without `&` comes back unchanged.
#[verifier::external_body]
pub(crate) fn unescape(text: &str) -> (res: Result<String, String>)
    ensures
        result_view(res) == xml_unescape(text@),
        res matches Ok(s) ==> (forall|i: int| 0 <= i < text@.len() ==> #[trigger] text@[i] != '&') ==> s@ == text@,
        res is Err ==> exists|i: int| 0 <= i < text@.len() && #[trigger] text@[i] == '&',
{
    match quick_xml::escape::unescape(text) {
        Ok(s) => Ok(s.into_owned()),
        Err(e) => Err(format!("{:#}", anyhow::Error::new(e))),
    }
}

/// The extraction state between events: whether a record element is open,
/// what of the record has been read, and the names of the elements open at
/// this point of the document, outermost first.
pub struct RecordStateView {
    pub in_record: bool,
    pub ean: Option<Seq<char>>,
    pub value: Option<RecordValueView>,
    pub open_tags: Seq<Seq<u8>>,
}

pub open spec fn initial_state() -> RecordStateView {
    RecordStateView { in_record: false, ean: None, value: None, open_tags: Seq::empty() }
}

/// The tag of the element that encloses text read in state `st`: the
/// innermost open element (none at the top of the document).
pub open spec fn enclosing_tag(st: RecordStateView) -> Seq<u8> {
    if st.open_tags.len() > 0 {
        st.open_tags.last()
    } else {
        Seq::empty()
    }
}

/// The open elements once the innermost one has closed.
pub open spec fn close_innermost(open_tags: Seq<Seq<u8>>) -> Seq<Seq<u8>> {
    if open_tags.len() > 0 {
        open_tags.drop_last()
    } else {
        open_tags
    }
}

/// Index of the first field whose selector is `tag`, or the number of
/// fields when none is.
pub open spec fn find_field(fields: Seq<(String, FieldMapping)>, tag: Seq<u8>) -> int
    decreases fields.len(),
{
    if fields.len() == 0 {
        0
    } else if encode_utf8(fields[0].1.selector@) == tag {
        0
    } else {
        1 + find_field(fields.drop_first(), tag)
    }
}

/// Text read inside a record, assigned to the field selected by the tag of
/// its enclosing element: read as the field's type, then stored as the EAN, the stock or the
/// price by the field's name; a field of any other name is read and dropped.
pub open spec fn apply_field_spec(
    st: RecordStateView,
    text: Seq<char>,
    fields: Seq<(String, FieldMapping)>,
) -> Result<RecordStateView, Seq<char>> {
    let i = find_field(fields, enclosing_tag(st));
    if i >= fields.len() {
        Ok(st)
    } else {
        let name = fields[i].0@;
        match coerce_spec(text, fields[i].1.field_type) {
            Err(m) => Err(m),
            Ok(v) => {
                if name == "ean"@ {
                    Ok(RecordStateView { ean: Some(into_string_spec(v)), ..st })
                } else if name == "stock"@ {
                    match into_i64_spec(v) {
                        Ok(n) => Ok(RecordStateView { value: Some(RecordValueView::Stock(n)), ..st }),
                        Err(m) => Err(m),
                    }
                } else if name == "price"@ {
                    match into_decimal_spec(v) {
                        Ok(d) => Ok(RecordStateView { value: Some(RecordValueView::Price(d)), ..st }),
                        Err(m) => Err(m),
                    }
                } else {
                    Ok(st)
                }
            },
        }
    }
}

pub enum Step {
    /// Go on with the next event, having completed a record or not.
    Next(RecordStateView, Option<RecordView>),
    /// Stop reading: the document ended, or parsing failed with a message.
    Done(Result<(), Seq<char>>),
}

/// One reader outcome as record extraction uses it: a failed read, a start
/// or end tag, the characters of a text or CDATA node (or why they could
/// not be had), the end of the document, or any other event.
pub enum ReadOutcome {
    Failed(String),
    Start(Vec<u8>),
    End(Vec<u8>),
    Text(Result<String, String>),
    Eof,
    Other,
}

pub enum ReadToken {
    Failed(Seq<char>),
    Start(Seq<u8>),
    End(Seq<u8>),
    Text(Result<Seq<char>, Seq<char>>),
    Eof,
    Other,
}

impl View for ReadOutcome {
    type V = ReadToken;

    open spec fn view(&self) -> ReadToken {
        match self {
            ReadOutcome::Failed(m) => ReadToken::Failed(m@),
            ReadOutcome::Start(t) => ReadToken::Start(t@),
            ReadOutcome::End(t) => ReadToken::End(t@),
            ReadOutcome::Text(r) => ReadToken::Text(
                match r {
                    Ok(t) => Ok(t@),
                    Err(m) => Err(m@),
                },
            ),
            ReadOutcome::Eof => ReadToken::Eof,
            ReadOutcome::Other => ReadToken::Other,
        }
    }
}

/// What a reader outcome gives to record extraction: text is decoded as
/// UTF-8 and then unescaped, CDATA only decoded, as it is raw by definition.
pub open spec fn read_token(tok: Result<XmlToken, Seq<char>>) -> ReadToken {
    match tok {
        Err(m) => ReadToken::Failed(m),
        Ok(XmlToken::Eof) => ReadToken::Eof,
        Ok(XmlToken::Start(tag)) => ReadToken::Start(tag),
        Ok(XmlToken::End(tag)) => ReadToken::End(tag),
        Ok(XmlToken::Text(bytes)) => ReadToken::Text(
            if !valid_utf8(bytes) {
                Err("invalid xml text encoding: "@ + xml_decode_error(bytes))
            } else {
                match xml_unescape(decode_utf8(bytes)) {
                    Err(m) => Err("invalid xml entity: "@ + m),
                    Ok(t) => Ok(t),
                }
            },
        ),
        Ok(XmlToken::CData(bytes)) => ReadToken::Text(
            if !valid_utf8(bytes) {
                Err("invalid xml cdata encoding: "@ + xml_decode_error(bytes))
            } else {
                Ok(decode_utf8(bytes))
            },
        ),
        Ok(XmlToken::Other) => ReadToken::Other,
    }
}

/// What one outcome does to the extraction state: a start tag opens an
/// element (a record element starts a fresh record), an end tag closes the
/// innermost one (a record element hands over its record when it has both
/// an EAN and a value), text inside a record goes to the field its
/// enclosing element selects, and a failure or the end of the document
/// stops reading.
pub open spec fn advance_spec(
    st: RecordStateView,
    tok: ReadToken,
    record_tag: Seq<u8>,
    fields: Seq<(String, FieldMapping)>,
) -> Step {
    match tok {
        ReadToken::Failed(m) => Step::Done(Err("failed to read xml event: "@ + m)),
        ReadToken::Eof => Step::Done(Ok(())),
        ReadToken::Start(tag) => {
            if tag == record_tag {
                Step::Next(
                    RecordStateView {
                        in_record: true,
                        ean: None,
                        value: None,
                        open_tags: st.open_tags.push(tag),
                    },
                    None,
                )
            } else {
                Step::Next(RecordStateView { open_tags: st.open_tags.push(tag), ..st }, None)
            }
        },
        ReadToken::Text(r) => {
            if !st.in_record {
                Step::Next(st, None)
            } else {
                match r {
                    Err(m) => Step::Done(Err(m)),
                    Ok(t) => match apply_field_spec(st, t, fields) {
                        Err(m) => Step::Done(Err(m)),
                        Ok(st2) => Step::Next(st2, None),
                    },
                }
            }
        },
        ReadToken::End(tag) => {
            if tag == record_tag {
                let rec = match (st.ean, st.value) {
                    (Some(e), Some(v)) => Some(RecordView { ean: e, value: v }),
                    _ => None,
                };
                Step::Next(
                    RecordStateView {
                        in_record: false,
                        ean: None,
                        value: None,
                        open_tags: close_innermost(st.open_tags),
                    },
                    rec,
                )
            } else {
                Step::Next(RecordStateView { open_tags: close_innermost(st.open_tags), ..st }, None)
            }
        },
        ReadToken::Other => Step::Next(st, None),
    }
}

/// What one reader outcome does to the extraction state.
pub open spec fn step_spec(
    st: RecordStateView,
    tok: Result<XmlToken, Seq<char>>,
    record_tag: Seq<u8>,
    fields: Seq<(String, FieldMapping)>,
) -> Step {
    advance_spec(st, read_token(tok), record_tag, fields)
}

pub open spec fn option_seq<T>(o: Option<T>) -> Seq<T> {
    match o {
        Some(x) => seq![x],
        None => Seq::empty(),
    }
}

/// The records the outcomes `toks` complete from state `st`, in document
/// order, and how reading ended.
pub open spec fn run_tokens(
    st: RecordStateView,
    toks: Seq<Result<XmlToken, Seq<char>>>,
    record_tag: Seq<u8>,
    fields: Seq<(String, FieldMapping)>,
) -> (Seq<RecordView>, Result<(), Seq<char>>)
    decreases toks.len(),
{
    if toks.len() == 0 {
        (Seq::empty(), Ok(()))
    } else {
        match step_spec(st, toks[0], record_tag, fields) {
            Step::Done(r) => (Seq::empty(), r),
            Step::Next(st2, rec) => {
                let rest = run_tokens(st2, toks.drop_first(), record_tag, fields);
                (option_seq(rec) + rest.0, rest.1)
            },
        }
    }
}

/// The records an XML document yields and how reading it ended.
pub open spec fn xml_records(
    content: Seq<char>,
    record_tag: Seq<char>,
    fields: Seq<(String, FieldMapping)>,
) -> (Seq<RecordView>, Result<(), Seq<char>>) {
    run_tokens(initial_state(), xml_events(content), encode_utf8(record_tag), fields)
}

/// How many of the outcomes `toks` close a record element.
pub open spec fn closed_record_count(toks: Seq<Result<XmlToken, Seq<char>>>, record_tag: Seq<u8>) -> nat
    decreases toks.len(),
{
    if toks.len() == 0 {
        0
    } else {
        closed_record_count(toks.drop_first(), record_tag) + if toks[0] == Ok::<XmlToken, Seq<char>>(
            XmlToken::End(record_tag),
        ) {
            1nat
        } else {
            0nat
        }
    }
}

proof fn lemma_run_tokens_closed(
    st: RecordStateView,
    toks: Seq<Result<XmlToken, Seq<char>>>,
    record_tag: Seq<u8>,
    fields: Seq<(String, FieldMapping)>,
)
    ensures
        run_tokens(st, toks, record_tag, fields).0.len() <= closed_record_count(toks, record_tag),
    decreases toks.len(),
{
    if toks.len() > 0 {
        match step_spec(st, toks[0], record_tag, fields) {
            Step::Done(_) => {},
            Step::Next(st2, rec) => {
                lemma_run_tokens_closed(st2, toks.drop_first(), record_tag, fields);
            },
        }
    }
}

/// A record is completed only by the end tag of a record element, so a
/// document yields at most as many records as it closes record elements.
pub proof fn law_records_at_most_closed_record_tags(
    content: Seq<char>,
    record_tag: Seq<char>,
    fields: Seq<(String, FieldMapping)>,
)
    ensures
        xml_records(content, record_tag, fields).0.len() <= closed_record_count(
            xml_events(content),
            encode_utf8(record_tag),
        ),
{
    lemma_run_tokens_closed(initial_state(), xml_events(content), encode_utf8(record_tag), fields);
}

/// Whether the text of the outcome `tok`, read in state `st`, reads as
/// `field_type` when it stands inside a record in an element named
/// `selector`; other outcomes need nothing.
pub open spec fn text_reads_as(
    st: RecordStateView,
    tok: Result<XmlToken, Seq<char>>,
    selector: Seq<u8>,
    field_type: FieldType,
) -> bool {
    st.in_record && enclosing_tag(st) == selector ==> match tok {
        Ok(XmlToken::Text(bytes)) => valid_utf8(bytes) ==> match xml_unescape(decode_utf8(bytes)) {
            Ok(t) => coerce_spec(t, field_type) is Ok,
            Err(_) => true,
        },
        Ok(XmlToken::CData(bytes)) => valid_utf8(bytes) ==> coerce_spec(decode_utf8(bytes), field_type) is Ok,
        _ => true,
    }
}

/// Every text that the outcomes `toks`, read from state `st`, place inside
/// a record in an element named `selector` reads as `field_type`.
pub open spec fn texts_read_as(
    st: RecordStateView,
    toks: Seq<Result<XmlToken, Seq<char>>>,
    record_tag: Seq<u8>,
    fields: Seq<(String, FieldMapping)>,
    selector: Seq<u8>,
    field_type: FieldType,
) -> bool
    decreases toks.len(),
{
    if toks.len() == 0 {
        true
    } else {
        &&& text_reads_as(st, toks[0], selector, field_type)
        &&& match step_spec(st, toks[0], record_tag, fields) {
            Step::Done(_) => true,
            Step::Next(st2, _) => texts_read_as(st2, toks.drop_first(), record_tag, fields, selector, field_type),
        }
    }
}

/// A field of none of the names "ean", "stock" and "price", whose selector
/// no other field has.
pub open spec fn unrelated_field(fields: Seq<(String, FieldMapping)>, extra: (String, FieldMapping)) -> bool {
    &&& extra.0@ != "ean"@
    &&& extra.0@ != "stock"@
    &&& extra.0@ != "price"@
    &&& forall|i: int| 0 <= i < fields.len() ==> #[trigger] fields[i].1.selector@ != extra.1.selector@
}

proof fn lemma_find_field_insert(
    fields: Seq<(String, FieldMapping)>,
    k: int,
    extra: (String, FieldMapping),
    tag: Seq<u8>,
)
    requires
        0 <= k <= fields.len(),
        forall|i: int|
            0 <= i < fields.len() ==> #[trigger] encode_utf8(fields[i].1.selector@) != encode_utf8(
                extra.1.selector@,
            ),
    ensures
        ({
            let more = fields.insert(k, extra);
            let j = find_field(fields, tag);
            let j2 = find_field(more, tag);
            &&& encode_utf8(extra.1.selector@) == tag ==> j == fields.len() && j2 < more.len()
                && more[j2] == extra
            &&& encode_utf8(extra.1.selector@) != tag ==> (j < fields.len() ==> j2 < more.len()
                && more[j2] == fields[j]) && (j >= fields.len() ==> j2 >= more.len())
        }),
    decreases fields.len(),
{
    let more = fields.insert(k, extra);
    lemma_find_field_bound(fields, tag);
    lemma_find_field_bound(more, tag);
    if k == 0 {
        assert(more[0] == extra);
        assert(more.drop_first() =~= fields);
    } else {
        assert(more[0] == fields[0]);
        assert(more.drop_first() =~= fields.drop_first().insert(k - 1, extra));
        assert forall|i: int| 0 <= i < fields.drop_first().len() implies #[trigger] encode_utf8(
            fields.drop_first()[i].1.selector@,
        ) != encode_utf8(extra.1.selector@) by {
            assert(fields.drop_first()[i] == fields[i + 1]);
        }
        lemma_find_field_insert(fields.drop_first(), k - 1, extra, tag);
        if encode_utf8(fields[0].1.selector@) != tag {
            assert(find_field(fields, tag) == 1 + find_field(fields.drop_first(), tag));
            assert(find_field(more, tag) == 1 + find_field(more.drop_first(), tag));
        }
    }
}

proof fn lemma_apply_field_insert(
    st: RecordStateView,
    text: Seq<char>,
    fields: Seq<(String, FieldMapping)>,
    k: int,
    extra: (String, FieldMapping),
)
    requires
        0 <= k <= fields.len(),
        unrelated_field(fields, extra),
        enclosing_tag(st) == encode_utf8(extra.1.selector@) ==> coerce_spec(text, extra.1.field_type) is Ok,
    ensures
        apply_field_spec(st, text, fields.insert(k, extra)) == apply_field_spec(st, text, fields),
{
    assert forall|i: int|
        0 <= i < fields.len() implies #[trigger] encode_utf8(fields[i].1.selector@) != encode_utf8(
        extra.1.selector@,
    ) by {
        if encode_utf8(fields[i].1.selector@) == encode_utf8(extra.1.selector@) {
            encode_utf8_decode_utf8(fields[i].1.selector@);
            encode_utf8_decode_utf8(extra.1.selector@);
        }
    }
    lemma_find_field_insert(fields, k, extra, enclosing_tag(st));
}

proof fn lemma_run_tokens_insert(
    st: RecordStateView,
    toks: Seq<Result<XmlToken, Seq<char>>>,
    record_tag: Seq<u8>,
    fields: Seq<(String, FieldMapping)>,
    k: int,
    extra: (String, FieldMapping),
)
    requires
        0 <= k <= fields.len(),
        unrelated_field(fields, extra),
        texts_read_as(st, toks, record_tag, fields, encode_utf8(extra.1.selector@), extra.1.field_type),
    ensures
        run_tokens(st, toks, record_tag, fields.insert(k, extra)) == run_tokens(st, toks, record_tag, fields),
    decreases toks.len(),
{
    if toks.len() > 0 {
        let more = fields.insert(k, extra);
        match toks[0] {
            Ok(XmlToken::Text(bytes)) => {
                if st.in_record && valid_utf8(bytes) {
                    if let Ok(t) = xml_unescape(decode_utf8(bytes)) {
                        lemma_apply_field_insert(st, t, fields, k, extra);
                    }
                }
            },
            Ok(XmlToken::CData(bytes)) => {
                if st.in_record && valid_utf8(bytes) {
                    lemma_apply_field_insert(st, decode_utf8(bytes), fields, k, extra);
                }
            },
            _ => {},
        }
        assert(step_spec(st, toks[0], record_tag, more) == step_spec(st, toks[0], record_tag, fields));
        match step_spec(st, toks[0], record_tag, fields) {
            Step::Done(_) => {},
            Step::Next(st2, _) => {
                lemma_run_tokens_insert(st2, toks.drop_first(), record_tag, fields, k, extra);
            },
        }
    }
}

/// Fields of other names are read and dropped: adding a field of none of
/// the names "ean", "stock" and "price", with a selector of its own, leaves
/// the records of a document and how reading it ends unchanged, as long as
/// every text it selects inside a record reads as its type.
pub proof fn law_unrelated_field_changes_nothing(
    content: Seq<char>,
    record_tag: Seq<char>,
    fields: Seq<(String, FieldMapping)>,
    k: int,
    extra: (String, FieldMapping),
)
    requires
        0 <= k <= fields.len(),
        unrelated_field(fields, extra),
        texts_read_as(
            initial_state(),
            xml_events(content),
            encode_utf8(record_tag),
            fields,
            encode_utf8(extra.1.selector@),
            extra.1.field_type,
        ),
    ensures
        xml_records(content, record_tag, fields.insert(k, extra)) == xml_records(content, record_tag, fields),
{
    lemma_run_tokens_insert(initial_state(), xml_events(content), encode_utf8(record_tag), fields, k, extra);
}

/// One record handed to a sink, with the sink's answer.
pub type SinkCall = (RecordView, Result<(), Seq<char>>);

/// The records of `calls`, in order.
pub open spec fn call_records(calls: Seq<SinkCall>) -> Seq<RecordView> {
    calls.map_values(|c: SinkCall| c.0)
}

/// Receives records one at a time as a parser produces them, and may
/// refuse one, which stops the parse.
pub trait RecordSink {
    fn on_record(&mut self, record: Record) -> Result<(), String>;
}

/// A sink together with the account of every record handed to it.
pub struct LoggedSink<S: RecordSink> {
    sink: S,
    calls: Ghost<Seq<SinkCall>>,
}

impl<S: RecordSink> LoggedSink<S> {
    /// The records handed to the sink so far, in order, each with the
    /// sink's answer.
    pub closed spec fn calls(&self) -> Seq<SinkCall> {
        self.calls@
    }

    /// The sink the records are handed to.
    pub closed spec fn sink(&self) -> S {
        self.sink
    }

    pub fn new(sink: S) -> (res: Self)
        ensures
            res.calls() == Seq::<SinkCall>::empty(),
            res.sink() == sink,
    {
        LoggedSink { sink, calls: Ghost(Seq::empty()) }
    }

    /// Hands one record to the sink and records it with the sink's answer.
    pub fn on_record(&mut self, record: Record) -> (res: Result<(), String>)
        ensures
            final(self).calls() == old(self).calls().push((record@, result_view_unit(res))),
    {
        let ghost rv = record@;
        let res = self.sink.on_record(record);
        self.calls = Ghost(self.calls@.push((rv, result_view_unit(res))));
        res
    }

    /// The sink, with what it received.
    pub fn into_sink(self) -> (res: S)
        ensures
            res == self.sink(),
    {
        self.sink
    }
}

/// What a parse that made the sink calls `calls` gave, for a document that
/// yields `total`: the document's records in order, up to the first one the
/// sink refused; the parse then ends with that refusal as it was given, and
/// else as reading the document ended.
pub open spec fn parse_outcome(
    calls: Seq<SinkCall>,
    total: (Seq<RecordView>, Result<(), Seq<char>>),
    res: Result<(), Seq<char>>,
) -> bool {
    &&& calls.len() <= total.0.len()
    &&& forall|i: int| 0 <= i < calls.len() ==> #[trigger] calls[i].0 == total.0[i]
    &&& forall|i: int| 0 <= i < calls.len() - 1 ==> #[trigger] calls[i].1 is Ok
    &&& if calls.len() > 0 && calls.last().1 is Err {
        res == calls.last().1
    } else {
        calls.len() == total.0.len() && res == total.1
    }
}

/// The answers of `calls` are those of a sink that answers by `answer`,
/// applied to the records it has received so far.
pub open spec fn answers_by(
    calls: Seq<SinkCall>,
    answer: spec_fn(Seq<RecordView>) -> Result<(), Seq<char>>,
) -> bool {
    forall|i: int| 0 <= i < calls.len() ==> #[trigger] calls[i].1 == answer(call_records(calls.take(i + 1)))
}

proof fn lemma_same_answers(
    c1: Seq<SinkCall>,
    c2: Seq<SinkCall>,
    total: (Seq<RecordView>, Result<(), Seq<char>>),
    r1: Result<(), Seq<char>>,
    r2: Result<(), Seq<char>>,
    answer: spec_fn(Seq<RecordView>) -> Result<(), Seq<char>>,
    i: int,
)
    requires
        parse_outcome(c1, total, r1),
        parse_outcome(c2, total, r2),
        answers_by(c1, answer),
        answers_by(c2, answer),
        0 <= i < c1.len(),
        i < c2.len(),
    ensures
        c1[i] == c2[i],
{
    assert(c1[i].0 == total.0[i]);
    assert(c2[i].0 == total.0[i]);
    assert(call_records(c1.take(i + 1)) =~= call_records(c2.take(i + 1))) by {
        assert forall|j: int| 0 <= j < i + 1 implies #[trigger] call_records(c1.take(i + 1))[j]
            == call_records(c2.take(i + 1))[j] by {
            assert(c1[j].0 == total.0[j]);
            assert(c2[j].0 == total.0[j]);
        }
    }
    assert(c1[i].1 == answer(call_records(c1.take(i + 1))));
    assert(c2[i].1 == answer(call_records(c2.take(i + 1))));
}

proof fn lemma_not_shorter(
    c1: Seq<SinkCall>,
    c2: Seq<SinkCall>,
    total: (Seq<RecordView>, Result<(), Seq<char>>),
    r1: Result<(), Seq<char>>,
    r2: Result<(), Seq<char>>,
    answer: spec_fn(Seq<RecordView>) -> Result<(), Seq<char>>,
)
    requires
        parse_outcome(c1, total, r1),
        parse_outcome(c2, total, r2),
        answers_by(c1, answer),
        answers_by(c2, answer),
    ensures
        c1.len() >= c2.len(),
{
    if c1.len() < c2.len() {
        let k = c1.len() - 1;
        assert(c1.len() > 0 && c1.last().1 is Err);
        lemma_same_answers(c1, c2, total, r1, r2, answer, k);
        assert(c2[k].1 is Ok);
    }
}

/// Parses of one document by sinks that answer alike make the same calls,
/// with the same records in the same order, and end alike. `parse_source`
/// states for an XML source the outcome `XmlConfig::parse` states, so with
/// the same sink the two make the same calls and return the same.
pub proof fn law_parse_outcome_determined(
    c1: Seq<SinkCall>,
    c2: Seq<SinkCall>,
    total: (Seq<RecordView>, Result<(), Seq<char>>),
    r1: Result<(), Seq<char>>,
    r2: Result<(), Seq<char>>,
    answer: spec_fn(Seq<RecordView>) -> Result<(), Seq<char>>,
)
    requires
        parse_outcome(c1, total, r1),
        parse_outcome(c2, total, r2),
        answers_by(c1, answer),
        answers_by(c2, answer),
    ensures
        c1 == c2,
        r1 == r2,
{
    lemma_not_shorter(c1, c2, total, r1, r2, answer);
    lemma_not_shorter(c2, c1, total, r2, r1, answer);
    assert forall|i: int| 0 <= i < c1.len() implies c1[i] == c2[i] by {
        lemma_same_answers(c1, c2, total, r1, r2, answer, i);
    }
    assert(c1 =~= c2);
}

/// A sink that keeps every record and refuses none.
pub struct RecordList {
    pub records: Vec<Record>,
}

impl RecordList {
    pub fn new() -> (res: RecordList)
        ensures
            res.records@.len() == 0,
    {
        RecordList { records: Vec::new() }
    }
}

impl RecordSink for RecordList {
    fn on_record(&mut self, record: Record) -> (res: Result<(), String>)
        ensures
            final(self).records@ == old(self).records@.push(record),
            res is Ok,
    {
        self.records.push(record);
        Ok(())
    }
}


/// The extraction state between events.
pub struct RecordState {
    in_record: bool,
    ean: Option<String>,
    value: Option<RecordValue>,
    open_tags: Vec<Vec<u8>>,
}

impl View for RecordState {
    type V = RecordStateView;

    closed spec fn view(&self) -> RecordStateView {
        RecordStateView {
            in_record: self.in_record,
            ean: match self.ean {
                Some(e) => Some(e@),
                None => None,
            },
            value: match self.value {
                Some(v) => Some(v@),
                None => None,
            },
            open_tags: self.open_tags@.map_values(|t: Vec<u8>| t@),
        }
    }
}

fn bytes_eq(a: &[u8], b: &[u8]) -> (res: bool)
    ensures
        res == (a@ == b@),
{
    if a.len() != b.len() {
        return false;
    }
    let mut i: usize = 0;
    while i < a.len()
        invariant
            a@.len() == b@.len(),
            i <= a@.len(),
            forall|j: int| 0 <= j < i ==> a@[j] == b@[j],
        decreases a@.len() - i,
    {
        if a[i] != b[i] {
            return false;
        }
        i += 1;
    }
    assert(a@ == b@);
    true
}

fn find_field_exec(fields: &Vec<(String, FieldMapping)>, tag: &Vec<u8>) -> (i: usize)
    ensures
        i as int == find_field(fields@, tag@),
        i <= fields@.len(),
{
    let mut i: usize = 0;
    assert(fields@.skip(0) == fields@);
    while i < fields.len()
        invariant
            i <= fields@.len(),
            find_field(fields@, tag@) == i + find_field(fields@.skip(i as int), tag@),
        decreases fields@.len() - i,
    {
        let ghost rest = fields@.skip(i as int);
        assert(rest[0] == fields@[i as int]);
        if bytes_eq(fields[i].1.selector.as_str().as_bytes(), tag.as_slice()) {
            return i;
        }
        assert(rest.drop_first() == fields@.skip(i + 1));
        i += 1;
    }
    i
}

proof fn lemma_find_field_bound(fields: Seq<(String, FieldMapping)>, tag: Seq<u8>)
    ensures
        0 <= find_field(fields, tag) <= fields.len(),
        find_field(fields, tag) < fields.len() ==> encode_utf8(
            fields[find_field(fields, tag)].1.selector@,
        ) == tag,
    decreases fields.len(),
{
    if fields.len() > 0 {
        lemma_find_field_bound(fields.drop_first(), tag);
    }
}

/// Assigns `text` to the field the current tag selects.
fn apply_field(st: &mut RecordState, text: &str, fields: &Vec<(String, FieldMapping)>) -> (res:
    Result<(), String>)
    ensures
        match res {
            Ok(()) => apply_field_spec(old(st)@, text@, fields@) == Ok::<
                RecordStateView,
                Seq<char>,
            >(final(st)@),
            Err(m) => apply_field_spec(old(st)@, text@, fields@) == Err::<
                RecordStateView,
                Seq<char>,
            >(m@) && final(st)@ == old(st)@,
        },
{
    let none: Vec<u8> = Vec::new();
    let n = st.open_tags.len();
    let tag = if n > 0 {
        &st.open_tags[n - 1]
    } else {
        &none
    };
    assert(tag@ == enclosing_tag(old(st)@));
    let i = find_field_exec(fields, tag);
    if i >= fields.len() {
        return Ok(());
    }
    let name = fields[i].0.as_str();
    let coerced = match coerce(text, fields[i].1.field_type) {
        Ok(v) => v,
        Err(m) => return Err(m),
    };
    if str_eq(name, "ean") {
        st.ean = Some(coerced.into_string());
    } else if str_eq(name, "stock") {
        match coerced.into_i64() {
            Ok(n) => st.value = Some(RecordValue::Stock(n)),
            Err(m) => return Err(m),
        }
    } else if str_eq(name, "price") {
        match coerced.into_decimal() {
            Ok(d) => st.value = Some(RecordValue::Price(d)),
            Err(m) => return Err(m),
        }
    }
    Ok(())
}

/// What one event did: go on, having completed a record or not, or stop.
pub enum StepOutcome {
    Next(Option<Record>),
    Done(Result<(), String>),
}

fn prefixed(prefix: &str, m: String) -> (res: String)
    ensures
        res@ == prefix@ + m@,
{
    let mut out = string_of(prefix);
    push_str(&mut out, m.as_str());
    out
}

impl RecordState {
    /// The state at the start of a document: no element open, no record.
    pub fn new() -> (res: RecordState)
        ensures
            res@ == initial_state(),
    {
        let res = RecordState { in_record: false, ean: None, value: None, open_tags: Vec::new() };
        assert(res@.open_tags =~= Seq::<Seq<u8>>::empty());
        res
    }

    /// Applies one outcome to the extraction state, as `advance_spec`
    /// states it: the state afterwards, and the record completed, if any, or
    /// how reading stopped.
    pub fn advance(
        &mut self,
        outcome: ReadOutcome,
        record_tag: &[u8],
        fields: &Vec<(String, FieldMapping)>,
    ) -> (res: StepOutcome)
        ensures
            match (res, advance_spec(old(self)@, outcome@, record_tag@, fields@)) {
                (StepOutcome::Next(r), Step::Next(st2, rec)) => final(self)@ == st2 && match r {
                    Some(x) => rec == Some(x@),
                    None => rec is None,
                },
                (StepOutcome::Done(r), Step::Done(d)) => result_view_unit(r) == d,
                _ => false,
            },
    {
        match outcome {
            ReadOutcome::Failed(m) => StepOutcome::Done(Err(prefixed("failed to read xml event: ", m))),
            ReadOutcome::Eof => StepOutcome::Done(Ok(())),
            ReadOutcome::Start(tag) => {
                if bytes_eq(tag.as_slice(), record_tag) {
                    self.in_record = true;
                    self.ean = None;
                    self.value = None;
                }
                let ghost before = self.open_tags@;
                self.open_tags.push(tag);
                assert(self.open_tags@.map_values(|t: Vec<u8>| t@) =~= before.map_values(
                    |t: Vec<u8>| t@,
                ).push(self.open_tags@.last()@));
                StepOutcome::Next(None)
            },
            ReadOutcome::Text(r) => {
                if !self.in_record {
                    return StepOutcome::Next(None);
                }
                match r {
                    Err(m) => StepOutcome::Done(Err(m)),
                    Ok(text) => match apply_field(self, text.as_str(), fields) {
                        Ok(()) => StepOutcome::Next(None),
                        Err(m) => StepOutcome::Done(Err(m)),
                    },
                }
            },
            ReadOutcome::End(tag) => {
                let ghost before = self.open_tags@;
                let _ = self.open_tags.pop();
                assert(self.open_tags@.map_values(|t: Vec<u8>| t@) =~= close_innermost(
                    before.map_values(|t: Vec<u8>| t@),
                ));
                if bytes_eq(tag.as_slice(), record_tag) {
                    self.in_record = false;
                    let ean = self.ean.take();
                    let value = self.value.take();
                    match (ean, value) {
                        (Some(ean), Some(value)) => StepOutcome::Next(Some(Record { ean, value })),
                        _ => StepOutcome::Next(None),
                    }
                } else {
                    StepOutcome::Next(None)
                }
            },
            ReadOutcome::Other => StepOutcome::Next(None),
        }
    }
}

/// Applies one reader outcome to the extraction state, as `step_spec`
/// states it. The text of a node is decoded only inside a record, where it
/// is used.
fn step(
    st: &mut RecordState,
    reader: &XmlReader,
    ev: Result<XmlEvent, String>,
    record_tag: &[u8],
    fields: &Vec<(String, FieldMapping)>,
) -> (res: StepOutcome)
    ensures
        match (res, step_spec(old(st)@, result_view(ev), record_tag@, fields@)) {
            (StepOutcome::Next(r), Step::Next(st2, rec)) => final(st)@ == st2 && match r {
                Some(x) => rec == Some(x@),
                None => rec is None,
            },
            (StepOutcome::Done(r), Step::Done(d)) => result_view_unit(r) == d,
            _ => false,
        },
{
    let outcome = match ev {
        Err(m) => ReadOutcome::Failed(m),
        Ok(XmlEvent::Eof) => ReadOutcome::Eof,
        Ok(XmlEvent::Start(tag)) => ReadOutcome::Start(tag),
        Ok(XmlEvent::End(tag)) => ReadOutcome::End(tag),
        Ok(XmlEvent::Other) => ReadOutcome::Other,
        Ok(XmlEvent::Text(bytes)) => {
            if !st.in_record {
                return StepOutcome::Next(None);
            }
            let text = match reader.decode(&bytes) {
                Err(m) => Err(prefixed("invalid xml text encoding: ", m)),
                Ok(d) => match unescape(d.as_str()) {
                    Err(m) => Err(prefixed("invalid xml entity: ", m)),
                    Ok(t) => Ok(t),
                },
            };
            ReadOutcome::Text(text)
        },
        Ok(XmlEvent::CData(bytes)) => {
            if !st.in_record {
                return StepOutcome::Next(None);
            }
            // CDATA is raw by definition: decoded, never unescaped.
            let text = match reader.decode(&bytes) {
                Err(m) => Err(prefixed("invalid xml cdata encoding: ", m)),
                Ok(d) => Ok(d),
            };
            ReadOutcome::Text(text)
        },
    };
    assert(outcome@ == read_token(result_view(ev)));
    st.advance(outcome, record_tag, fields)
}

pub open spec fn result_view_unit(r: Result<(), String>) -> Result<(), Seq<char>> {
    match r {
        Ok(()) => Ok(()),
        Err(e) => Err(e@),
    }
}

impl XmlConfig {
    /// Reads the records of an XML document, handing each to `sink` as soon
    /// as its element closes. Reading stops with the sink's error when it
    /// refuses a record, and otherwise tells how reading the document ended.
    pub fn parse<S: RecordSink>(
        &self,
        content: &str,
        fields: &Vec<(String, FieldMapping)>,
        sink: &mut LoggedSink<S>,
    ) -> (res: Result<(), String>)
        requires
            names_distinct(fields@),
        ensures
            old(sink).calls().len() <= final(sink).calls().len(),
            final(sink).calls().take(old(sink).calls().len() as int) == old(sink).calls(),
            parse_outcome(
                final(sink).calls().skip(old(sink).calls().len() as int),
                xml_records(content@, self.xml.record_tag@, fields@),
                result_view_unit(res),
            ),
    {
        let mut reader = XmlReader::from_str(content);
        let record_tag = self.xml.record_tag.as_str().as_bytes();
        let mut st = RecordState::new();
        let ghost total = xml_records(content@, self.xml.record_tag@, fields@);
        let ghost tag = encode_utf8(self.xml.record_tag@);
        let ghost start = sink.calls();
        let ghost k0 = start.len() as int;
        assert(st@ == initial_state());
        assert(sink.calls().skip(k0) =~= Seq::<SinkCall>::empty());
        assert(sink.calls().take(k0) =~= start);
        assert(call_records(Seq::<SinkCall>::empty()) =~= Seq::<RecordView>::empty());
        loop
            invariant
                record_tag@ == tag,
                start == old(sink).calls(),
                k0 == start.len(),
                k0 <= sink.calls().len(),
                sink.calls().take(k0) == start,
                tag == encode_utf8(self.xml.record_tag@),
                total == xml_records(content@, self.xml.record_tag@, fields@),
                well_formed_stream(reader.pending(), content@.len()),
                total.1 == run_tokens(st@, reader.pending(), tag, fields@).1,
                call_records(sink.calls().skip(k0)) + run_tokens(st@, reader.pending(), tag, fields@).0
                    == total.0,
                forall|i: int| 0 <= i < sink.calls().skip(k0).len() ==> #[trigger] sink.calls().skip(
                    k0,
                )[i].1 is Ok,
            decreases reader.pending().len(),
        {
            let ghost toks = reader.pending();
            let ghost before = st@;
            let ghost calls0 = sink.calls();
            let ev = reader.read_event();
            proof {
                assert(result_view(ev) == toks[0]);
            }
            match step(&mut st, &reader, ev, record_tag, fields) {
                StepOutcome::Next(rec) => {
                    proof {
                        if toks.len() == 1 {
                            assert(is_terminal(toks.last()));
                        }
                        assert(toks.len() > 1);
                        assert(!is_terminal(toks[0]));
                        assert forall|i: int| 0 <= i < reader.pending().len() - 1 implies !is_terminal(
                            #[trigger] reader.pending()[i],
                        ) by {
                            assert(reader.pending()[i] == toks[i + 1]);
                        }
                    }
                    match rec {
                        Some(r) => {
                            let ghost rv = r@;
                            let answer = sink.on_record(r);
                            proof {
                                let new0 = calls0.skip(k0);
                                let new1 = sink.calls().skip(k0);
                                assert(new1 =~= new0.push((rv, result_view_unit(answer))));
                                assert(sink.calls().take(k0) =~= calls0.take(k0));
                                assert(call_records(new1) =~= call_records(new0).push(rv));
                                let rest = run_tokens(st@, reader.pending(), tag, fields@).0;
                                assert(call_records(new1) + rest =~= call_records(new0) + (seq![rv]
                                    + rest));
                            }
                            match answer {
                                Ok(()) => {},
                                Err(e) => {
                                    proof {
                                        let new1 = sink.calls().skip(k0);
                                        let rest = run_tokens(st@, reader.pending(), tag, fields@).0;
                                        assert(total.0 == call_records(new1) + rest);
                                        assert(new1.len() <= total.0.len());
                                        assert forall|i: int| 0 <= i < new1.len() implies #[trigger] new1[i].0
                                            == total.0[i] by {
                                            assert(call_records(new1)[i] == new1[i].0);
                                        }
                                        assert forall|i: int| 0 <= i < new1.len() - 1 implies #[trigger] new1[i].1
                                            is Ok by {
                                            assert(new1[i] == calls0.skip(k0)[i]);
                                        }
                                    }
                                    return Err(e);
                                },
                            }
                        },
                        None => {},
                    }
                },
                StepOutcome::Done(r) => {
                    proof {
                        assert(toks.len() > 0);
                        assert(run_tokens(before, toks, tag, fields@).1 == result_view_unit(r));
                        assert(run_tokens(before, toks, tag, fields@).0 == Seq::<RecordView>::empty());
                        let new1 = sink.calls().skip(k0);
                        assert(call_records(new1) + Seq::<RecordView>::empty() =~= call_records(new1));
                        assert(call_records(new1) == total.0);
                        assert forall|i: int| 0 <= i < new1.len() implies #[trigger] new1[i].0
                            == total.0[i] by {
                            assert(call_records(new1)[i] == new1[i].0);
                        }
                        if new1.len() > 0 {
                            assert(new1.last().1 is Ok);
                        }
                    }
                    return r;
                },
            }
        }
    }
}

/// The records of an XML document, read one at a time as their elements
/// close.
pub struct XmlRecords<'a> {
    reader: XmlReader<'a>,
    state: RecordState,
    record_tag: &'a [u8],
    fields: &'a Vec<(String, FieldMapping)>,
    done: bool,
}

impl<'a> XmlRecords<'a> {
    /// The records still to come and how reading will end.
    pub closed spec fn remaining(&self) -> (Seq<RecordView>, Result<(), Seq<char>>) {
        if self.done {
            (Seq::empty(), Ok(()))
        } else {
            run_tokens(self.state@, self.reader.pending(), self.record_tag@, self.fields@)
        }
    }

    /// How many reader outcomes are left; a bound on the records to come.
    pub closed spec fn size(&self) -> nat {
        if self.done {
            0
        } else {
            self.reader.pending().len()
        }
    }

    pub closed spec fn wf(&self) -> bool {
        !self.done ==> well_formed_stream(self.reader.pending(), self.reader.pending().len() as nat)
    }

    /// The records still to come are no more than the outcomes left.
    pub proof fn lemma_remaining_bounded(&self)
        requires
            self.wf(),
        ensures
            self.remaining().0.len() <= self.size(),
    {
        if !self.done {
            lemma_run_tokens_len(self.state@, self.reader.pending(), self.record_tag@, self.fields@);
        }
    }

    /// Reads the next record; after the last one, the error that ended
    /// reading if there was one, then nothing.
    pub fn next_record(&mut self) -> (res: Option<Result<Record, String>>)
        requires
            old(self).wf(),
        ensures
            final(self).wf(),
            ({
                let (recs, end) = old(self).remaining();
                &&& res is Some ==> final(self).size() < old(self).size()
                &&& if recs.len() > 0 {
                    &&& res matches Some(Ok(r)) && r@ == recs[0]
                    &&& final(self).remaining() == (recs.drop_first(), end)
                } else {
                    &&& final(self).remaining() == (Seq::<RecordView>::empty(), Ok::<(), Seq<char>>(()))
                    &&& match end {
                        Ok(()) => res is None,
                        Err(m) => res matches Some(Err(e)) && e@ == m,
                    }
                }
            }),
    {
        if self.done {
            return None;
        }
        loop
            invariant
                !self.done,
                well_formed_stream(self.reader.pending(), self.reader.pending().len() as nat),
                self.remaining() == old(self).remaining(),
                self.size() <= old(self).size(),
            decreases self.reader.pending().len(),
        {
            let ghost toks = self.reader.pending();
            let ghost before = self.state@;
            let ev = self.reader.read_event();
            assert(result_view(ev) == toks[0]);
            match step(&mut self.state, &self.reader, ev, self.record_tag, self.fields) {
                StepOutcome::Next(rec) => {
                    proof {
                        if toks.len() == 1 {
                            assert(is_terminal(toks.last()));
                        }
                        assert(toks.len() > 1);
                        assert forall|i: int| 0 <= i < self.reader.pending().len() - 1 implies !is_terminal(
                            #[trigger] self.reader.pending()[i],
                        ) by {
                            assert(self.reader.pending()[i] == toks[i + 1]);
                        }
                    }
                    match rec {
                        Some(r) => {
                            return Some(Ok(r));
                        },
                        None => {},
                    }
                },
                StepOutcome::Done(r) => {
                    self.done = true;
                    return match r {
                        Ok(()) => None,
                        Err(m) => Some(Err(m)),
                    };
                },
            }
        }
    }
}

proof fn lemma_run_tokens_len(
    st: RecordStateView,
    toks: Seq<Result<XmlToken, Seq<char>>>,
    record_tag: Seq<u8>,
    fields: Seq<(String, FieldMapping)>,
)
    ensures
        run_tokens(st, toks, record_tag, fields).0.len() <= toks.len(),
    decreases toks.len(),
{
    if toks.len() > 0 {
        match step_spec(st, toks[0], record_tag, fields) {
            Step::Done(_) => {},
            Step::Next(st2, _) => lemma_run_tokens_len(st2, toks.drop_first(), record_tag, fields),
        }
    }
}

impl XmlConfig {
    /// The records of an XML document, to be read one at a time.
    pub fn records<'a>(&'a self, content: &'a str, fields: &'a Vec<(String, FieldMapping)>) -> (res:
        XmlRecords<'a>)
        requires
            names_distinct(fields@),
        ensures
            res.wf(),
            res.remaining() == xml_records(content@, self.xml.record_tag@, fields@),
            res.size() <= content@.len() + 1,
    {
        let reader = XmlReader::from_str(content);
        let record_tag = self.xml.record_tag.as_str().as_bytes();
        let state = RecordState::new();
        assert(state@ == initial_state());
        XmlRecords { reader, state, record_tag, fields, done: false }
    }
}

} // verus!
