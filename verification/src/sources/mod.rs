//! Turning raw feed text into records. Format code produces the generic
//! `Record` shape and never knows which kind of run it serves; the field
//! names "ean", "stock" and "price" decide where a value goes.

pub mod xml;

use vstd::prelude::*;
use crate::config::{FieldType, FormatConfig, SourceConfig};
use crate::decimal::{
    is_exp_marker, is_mantissa, lemma_find_exp_marker, unsigned_part,
    check_float_literal, float_literal_check, is_float_literal, literal_to_i64,
    literal_to_i64_spec, FloatErrorKind,
};
use crate::text::{
    is_digit, lemma_nat_text_digits, nat_text,
    chars_of, copy_string, i64_to_string, int_text, parse_i64, parse_i64_spec, push_chars,
    push_str, string_of, trim, trim_chars, IntErrorKind,
};

verus! {

/// A decimal literal that `f64::from_str` accepts, kept as its text.
pub struct DecimalText {
    text: String,
}

impl View for DecimalText {
    type V = Seq<char>;

    closed spec fn view(&self) -> Seq<char> {
        self.text@
    }
}

impl DecimalText {
    #[verifier::type_invariant]
    spec fn literal(self) -> bool {
        is_float_literal(self.text@)
    }

    /// Accepts `text` when it is a decimal literal.
    pub fn parse(text: &str) -> (res: Result<DecimalText, FloatErrorKind>)
        ensures
            match res {
                Ok(d) => float_literal_check(text@) is Ok && d@ == text@,
                Err(k) => float_literal_check(text@) == Err::<(), FloatErrorKind>(k),
            },
    {
        let v = chars_of(text);
        match check_float_literal(&v) {
            Ok(()) => Ok(DecimalText { text: string_of(text) }),
            Err(k) => Err(k),
        }
    }

    /// The literal.
    pub fn as_str(&self) -> (res: &str)
        ensures
            res@ == self@,
    {
        self.text.as_str()
    }

    pub fn copy(&self) -> (res: DecimalText)
        ensures
            res@ == self@,
    {
        proof {
            use_type_invariant(self);
        }
        DecimalText { text: copy_string(&self.text) }
    }

    /// The literal's integer part as an `i64` (see `literal_to_i64_spec`).
    pub fn to_i64(&self) -> (res: i64)
        ensures
            res as int == literal_to_i64_spec(self@),
    {
        proof {
            use_type_invariant(self);
        }
        let v = chars_of(self.text.as_str());
        literal_to_i64(&v)
    }
}

/// The decimal text of every integer is a decimal literal.
proof fn lemma_int_text_is_literal(n: int)
    ensures
        is_float_literal(int_text(n)),
{
    let m: nat = if n < 0 { (-n) as nat } else { n as nat };
    lemma_nat_text_digits(m);
    let t = nat_text(m);
    assert(unsigned_part(int_text(n)) == t);
    assert forall|i: int| 0 <= i < t.len() implies !is_exp_marker(#[trigger] t[i]) by {
        assert(is_digit(t[i]));
    }
    lemma_find_exp_marker(t, t.len() as int);
    assert(t.take(t.len() as int) == t);
    assert(is_mantissa(t));
}

/// A field value read according to its configured type.
pub enum Value {
    String(String),
    Integer(i64),
    Decimal(DecimalText),
    Date(String),
}

pub enum ValueView {
    String(Seq<char>),
    Integer(int),
    Decimal(Seq<char>),
    Date(Seq<char>),
}

impl View for Value {
    type V = ValueView;

    open spec fn view(&self) -> ValueView {
        match self {
            Value::String(s) => ValueView::String(s@),
            Value::Integer(n) => ValueView::Integer(*n as int),
            Value::Decimal(d) => ValueView::Decimal(d@),
            Value::Date(s) => ValueView::Date(s@),
        }
    }
}

/// What `coerce` gives for the raw text `raw` of a field of type `ft`: the
/// trimmed text, read as the type asks; the error is the message of the
/// integer or float parse that failed.
pub open spec fn coerce_spec(raw: Seq<char>, ft: FieldType) -> Result<ValueView, Seq<char>> {
    let t = trim(raw);
    match ft {
        FieldType::String => Ok(ValueView::String(t)),
        FieldType::Integer => match parse_i64_spec(t) {
            Ok(n) => Ok(ValueView::Integer(n)),
            Err(k) => Err(k.spec_message()),
        },
        FieldType::Decimal => match float_literal_check(t) {
            Ok(_) => Ok(ValueView::Decimal(t)),
            Err(k) => Err(k.spec_message()),
        },
        FieldType::Date => Ok(ValueView::Date(t)),
    }
}

pub open spec fn result_view<T: View>(r: Result<T, String>) -> Result<T::V, Seq<char>> {
    match r {
        Ok(v) => Ok(v@),
        Err(e) => Err(e@),
    }
}

fn string_from_chars(v: &Vec<char>) -> (res: String)
    ensures
        res@ == v@,
{
    let mut out = String::new();
    push_chars(&mut out, v, 0, v.len());
    assert(v@.subrange(0, v@.len() as int) == v@);
    out
}

/// Reads the raw text of a field as its configured type.
pub fn coerce(raw: &str, field_type: FieldType) -> (res: Result<Value, String>)
    ensures
        result_view(res) == coerce_spec(raw@, field_type),
{
    let t = trim_chars(raw);
    match field_type {
        FieldType::String => Ok(Value::String(string_from_chars(&t))),
        FieldType::Integer => match parse_i64(&t) {
            Ok(n) => Ok(Value::Integer(n)),
            Err(k) => Err(k.message()),
        },
        FieldType::Decimal => match check_float_literal(&t) {
            Ok(()) => Ok(Value::Decimal(DecimalText { text: string_from_chars(&t) })),
            Err(k) => Err(k.message()),
        },
        FieldType::Date => Ok(Value::Date(string_from_chars(&t))),
    }
}

/// The text a value stands for: strings and dates as they are, integers in
/// decimal, decimals as their literal.
pub open spec fn into_string_spec(v: ValueView) -> Seq<char> {
    match v {
        ValueView::String(s) => s,
        ValueView::Date(s) => s,
        ValueView::Integer(n) => int_text(n),
        ValueView::Decimal(d) => d,
    }
}

/// The integer a value stands for; text must read as an `i64` once trimmed.
pub open spec fn into_i64_spec(v: ValueView) -> Result<int, Seq<char>> {
    match v {
        ValueView::Integer(n) => Ok(n),
        ValueView::Decimal(d) => Ok(literal_to_i64_spec(d)),
        ValueView::String(s) => text_to_i64_spec(s),
        ValueView::Date(s) => text_to_i64_spec(s),
    }
}

pub open spec fn text_to_i64_spec(s: Seq<char>) -> Result<int, Seq<char>> {
    match parse_i64_spec(trim(s)) {
        Ok(n) => Ok(n),
        Err(k) => Err("'"@ + s + "' is not an integer: "@ + k.spec_message()),
    }
}

/// The decimal a value stands for; text must be a decimal literal once
/// trimmed.
pub open spec fn into_decimal_spec(v: ValueView) -> Result<Seq<char>, Seq<char>> {
    match v {
        ValueView::Decimal(d) => Ok(d),
        ValueView::Integer(n) => Ok(int_text(n)),
        ValueView::String(s) => text_to_decimal_spec(s),
        ValueView::Date(s) => text_to_decimal_spec(s),
    }
}

pub open spec fn text_to_decimal_spec(s: Seq<char>) -> Result<Seq<char>, Seq<char>> {
    match float_literal_check(trim(s)) {
        Ok(_) => Ok(trim(s)),
        Err(k) => Err("'"@ + s + "' is not a decimal: "@ + k.spec_message()),
    }
}

fn quoted_error(s: &String, what: &str, detail: String) -> (res: String)
    ensures
        res@ == "'"@ + s@ + what@ + detail@,
{
    let mut out = string_of("'");
    push_str(&mut out, s.as_str());
    push_str(&mut out, what);
    push_str(&mut out, detail.as_str());
    out
}

fn text_to_i64(s: &String) -> (res: Result<i64, String>)
    ensures
        match res {
            Ok(n) => text_to_i64_spec(s@) == Ok::<int, Seq<char>>(n as int),
            Err(e) => text_to_i64_spec(s@) == Err::<int, Seq<char>>(e@),
        },
{
    let t = trim_chars(s.as_str());
    match parse_i64(&t) {
        Ok(n) => Ok(n),
        Err(k) => Err(quoted_error(s, "' is not an integer: ", k.message())),
    }
}

fn text_to_decimal(s: &String) -> (res: Result<DecimalText, String>)
    ensures
        result_view(res) == text_to_decimal_spec(s@),
{
    let t = trim_chars(s.as_str());
    match check_float_literal(&t) {
        Ok(()) => Ok(DecimalText { text: string_from_chars(&t) }),
        Err(k) => Err(quoted_error(s, "' is not a decimal: ", k.message())),
    }
}

impl Value {
    /// For "ean": the value as text, whatever its configured type.
    pub fn into_string(self) -> (res: String)
        ensures
            res@ == into_string_spec(self@),
    {
        match self {
            Value::String(s) => s,
            Value::Date(s) => s,
            Value::Integer(n) => i64_to_string(n),
            Value::Decimal(d) => {
                proof {
                    use_type_invariant(&d);
                }
                d.text
            },
        }
    }

    /// For "stock": the value as an `i64`, whether it was configured as an
    /// integer, a decimal or text.
    pub fn into_i64(self) -> (res: Result<i64, String>)
        ensures
            match res {
                Ok(n) => into_i64_spec(self@) == Ok::<int, Seq<char>>(n as int),
                Err(e) => into_i64_spec(self@) == Err::<int, Seq<char>>(e@),
            },
    {
        match self {
            Value::Integer(n) => Ok(n),
            Value::Decimal(d) => Ok(d.to_i64()),
            Value::String(s) => text_to_i64(&s),
            Value::Date(s) => text_to_i64(&s),
        }
    }

    /// For "price": the value as a decimal, whether it was configured as an
    /// integer, a decimal or text.
    pub fn into_decimal(self) -> (res: Result<DecimalText, String>)
        ensures
            result_view(res) == into_decimal_spec(self@),
    {
        match self {
            Value::Decimal(d) => Ok(d),
            Value::Integer(n) => {
                proof {
                    lemma_int_text_is_literal(n as int);
                }
                Ok(DecimalText { text: i64_to_string(n) })
            },
            Value::String(s) => text_to_decimal(&s),
            Value::Date(s) => text_to_decimal(&s),
        }
    }
}

/// One extracted product: its EAN and the value of the run's kind.
pub struct Record {
    pub ean: String,
    pub value: RecordValue,
}

pub enum RecordValue {
    Stock(i64),
    Price(DecimalText),
}

pub enum RecordValueView {
    Stock(int),
    Price(Seq<char>),
}

pub struct RecordView {
    pub ean: Seq<char>,
    pub value: RecordValueView,
}

impl View for RecordValue {
    type V = RecordValueView;

    open spec fn view(&self) -> RecordValueView {
        match self {
            RecordValue::Stock(n) => RecordValueView::Stock(*n as int),
            RecordValue::Price(d) => RecordValueView::Price(d@),
        }
    }
}

impl View for Record {
    type V = RecordView;

    open spec fn view(&self) -> RecordView {
        RecordView { ean: self.ean@, value: self.value@ }
    }
}

impl RecordValue {
    pub fn as_stock(&self) -> (res: Option<i64>)
        ensures
            match self@ {
                RecordValueView::Stock(n) => res == Some(n as i64),
                RecordValueView::Price(_) => res is None,
            },
    {
        match self {
            RecordValue::Stock(n) => Some(*n),
            RecordValue::Price(_) => None,
        }
    }

    pub fn as_price(&self) -> (res: Option<&DecimalText>)
        ensures
            match self@ {
                RecordValueView::Price(d) => res is Some && res.unwrap()@ == d,
                RecordValueView::Stock(_) => res is None,
            },
    {
        match self {
            RecordValue::Price(p) => Some(p),
            RecordValue::Stock(_) => None,
        }
    }

    pub fn copy(&self) -> (res: RecordValue)
        ensures
            res@ == self@,
    {
        match self {
            RecordValue::Stock(n) => RecordValue::Stock(*n),
            RecordValue::Price(p) => RecordValue::Price(p.copy()),
        }
    }
}

/// A value is a stock or a price, never both nor neither.
pub proof fn law_record_value_has_one_reading(v: RecordValue)
    ensures
        (v@ is Stock) != (v@ is Price),
{
}

/// An integer field read back as a stock gives the number written, and
/// surrounding whitespace does not matter.
pub proof fn law_integer_stock_round_trip(n: i64, pad: Seq<char>)
    requires
        forall|i: int| 0 <= i < pad.len() ==> crate::text::is_whitespace(#[trigger] pad[i]),
    ensures
        coerce_spec(pad + int_text(n as int) + pad, FieldType::Integer) == Ok::<ValueView, Seq<char>>(
            ValueView::Integer(n as int),
        ),
{
    crate::text::law_parse_int_text(n);
    crate::text::lemma_int_text_unpadded(n as int);
    crate::text::lemma_trim_padded(int_text(n as int), pad);
}


/// A decimal field reaches the record as the price it holds: a decimal
/// literal, with any whitespace around it, read as a decimal and then taken
/// as a price, is the literal itself, digits after the point included.
pub proof fn law_decimal_price_unchanged(raw: Seq<char>)
    requires
        float_literal_check(trim(raw)) is Ok,
    ensures
        coerce_spec(raw, FieldType::Decimal) == Ok::<ValueView, Seq<char>>(ValueView::Decimal(trim(raw))),
        into_decimal_spec(ValueView::Decimal(trim(raw))) == Ok::<Seq<char>, Seq<char>>(trim(raw)),
{
}

/// Taking a decimal value as a price changes nothing of it.
pub proof fn law_decimal_value_is_its_price(d: Seq<char>)
    ensures
        into_decimal_spec(ValueView::Decimal(d)) == Ok::<Seq<char>, Seq<char>>(d),
{
}

/// Reads the records of a source's feed into `sink`, by the source's
/// format, as the format's own reader does. Only XML feeds can be read yet.
pub fn parse_source<S: xml::RecordSink>(
    content: &str,
    source: &SourceConfig,
    sink: &mut xml::LoggedSink<S>,
) -> (res: Result<(), String>)
    requires
        source.format_config is Xml,
        source.fields_distinct(),
    ensures
        old(sink).calls().len() <= final(sink).calls().len(),
        final(sink).calls().take(old(sink).calls().len() as int) == old(sink).calls(),
        match source.format_config {
            FormatConfig::Xml(x) => xml::parse_outcome(
                final(sink).calls().skip(old(sink).calls().len() as int),
                xml::xml_records(content@, x.xml.record_tag@, source.fields@),
                xml::result_view_unit(res),
            ),
            FormatConfig::Csv(_) => false,
        },
{
    match &source.format_config {
        FormatConfig::Xml(x) => x.parse(content, &source.fields, sink),
        FormatConfig::Csv(_) => {
            assert(false);
            Ok(())
        },
    }
}

} // verus!
