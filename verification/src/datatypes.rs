//! The scalar values a table can store.
//!
//! A stored value is text, a 32-bit signed integer or a 32-bit floating-point
//! number. The library never computes with floating-point numbers: it holds
//! such a value as its decimal text, which is what the file format stores.
use vstd::prelude::*;
use crate::numeric::{
    float_text, is_float_text, lemma_float_text_one_line, lemma_parse_render_int,
    lemma_render_int_chars, is_digit, parse_i32, push_i32, render_int,
};
use crate::text::{Span, has_char, span_is, to_chars, to_text};

verus! {

/// The declared type of a column.
#[derive(Clone, Copy, Debug, PartialEq, Eq, Structural)]
pub enum Kind {
    Text,
    Integer32,
    Float32,
}

impl Kind {
    /// The type tag that stands for this kind in field metadata.
    pub open spec fn tag(self) -> Seq<char> {
        match self {
            Kind::Text => seq!['S', 't', 'r', 'i', 'n', 'g'],
            Kind::Integer32 => seq!['i', '3', '2'],
            Kind::Float32 => seq!['f', '3', '2'],
        }
    }

    /// The kind that a type tag stands for, if it stands for one: the tags
    /// are `String`, `i32` and `f32`, and there is no other.
    pub open spec fn of_tag(tag: Seq<char>) -> Option<Kind> {
        if tag == Kind::Text.tag() {
            Some(Kind::Text)
        } else if tag == Kind::Integer32.tag() {
            Some(Kind::Integer32)
        } else if tag == Kind::Float32.tag() {
            Some(Kind::Float32)
        } else {
            None
        }
    }

    /// Reading a kind's own tag gives the kind back.
    pub proof fn lemma_of_tag(self)
        ensures
            Kind::of_tag(self.tag()) == Some(self),
    {
        assert(Kind::Text.tag().len() == 6);
        assert(Kind::Integer32.tag()[0] == 'i');
        assert(Kind::Float32.tag()[0] == 'f');
    }

    /// The canonical type name: `String`, `i32` or `f32`.
    pub fn name(&self) -> (s: String)
        ensures
            s@ == self.tag(),
    {
        match self {
            Kind::Text => {
                proof {
                    reveal_strlit("String");
                }
                let s = "String".to_string();
                assert(s@ =~= self.tag());
                s
            },
            Kind::Integer32 => {
                proof {
                    reveal_strlit("i32");
                }
                let s = "i32".to_string();
                assert(s@ =~= self.tag());
                s
            },
            Kind::Float32 => {
                proof {
                    reveal_strlit("f32");
                }
                let s = "f32".to_string();
                assert(s@ =~= self.tag());
                s
            },
        }
    }

    /// The kind that the tag covered by `span` stands for, if it stands for
    /// one.
    pub fn from_tag(v: &Vec<char>, span: Span) -> (k: Option<Kind>)
        requires
            span.within(0, v.len() as int),
        ensures
            k == Kind::of_tag(span.of(v@)),
    {
        let text = vec!['S', 't', 'r', 'i', 'n', 'g'];
        let integer = vec!['i', '3', '2'];
        let float = vec!['f', '3', '2'];
        proof {
            assert(text@ =~= Kind::Text.tag());
            assert(integer@ =~= Kind::Integer32.tag());
            assert(float@ =~= Kind::Float32.tag());
        }
        if span_is(v, span, &text) {
            Some(Kind::Text)
        } else if span_is(v, span, &integer) {
            Some(Kind::Integer32)
        } else if span_is(v, span, &float) {
            Some(Kind::Float32)
        } else {
            None
        }
    }
}

/// The decimal text of a 32-bit floating-point number, such as `3.2`, `-1e9`
/// or `inf`. A value of this type always holds well-formed text.
#[derive(Debug)]
pub struct FloatText {
    text: String,
}

impl View for FloatText {
    type V = Seq<char>;

    closed spec fn view(&self) -> Seq<char> {
        self.text@
    }
}

impl FloatText {
    #[verifier::type_invariant]
    spec fn well_formed(self) -> bool {
        is_float_text(self.text@)
    }

    /// Accepts `text` if it is the text of a floating-point number.
    pub fn new(text: &str) -> (r: Option<FloatText>)
        ensures
            r is Some == is_float_text(text@),
            r matches Some(f) ==> f@ == text@,
    {
        let chars = to_chars(text);
        let whole = Span { start: 0, end: chars.len() };
        assert(whole.of(chars@) =~= text@);
        FloatText::from_chars(&chars, whole)
    }

    /// Accepts the characters that `span` covers if they are the text of a
    /// floating-point number.
    pub fn from_chars(v: &Vec<char>, span: Span) -> (r: Option<FloatText>)
        requires
            span.within(0, v.len() as int),
        ensures
            r is Some == is_float_text(span.of(v@)),
            r matches Some(f) ==> f@ == span.of(v@),
    {
        if float_text(v, span) {
            Some(FloatText { text: to_text(v, span) })
        } else {
            None
        }
    }

    /// The text itself.
    pub fn as_str(&self) -> (s: &str)
        ensures
            s@ == self@,
            is_float_text(s@),
    {
        proof {
            use_type_invariant(self);
        }
        self.text.as_str()
    }

    /// A copy of this value.
    pub fn duplicate(&self) -> (r: FloatText)
        ensures
            r@ == self@,
    {
        proof {
            use_type_invariant(self);
        }
        FloatText { text: self.text.clone() }
    }
}

/// One stored value.
#[derive(Debug)]
pub enum DataType {
    String(String),
    Integer32(i32),
    Float32(FloatText),
}

/// What a stored value is, as a mathematical value.
pub enum Value {
    Text(Seq<char>),
    Integer32(i32),
    Float32(Seq<char>),
}

impl Value {
    /// The kind of the value.
    pub open spec fn kind(self) -> Kind {
        match self {
            Value::Text(_) => Kind::Text,
            Value::Integer32(_) => Kind::Integer32,
            Value::Float32(_) => Kind::Float32,
        }
    }

    /// The line that stands for the value in a file: text as it is, an
    /// integer in decimal, a floating-point number by its text.
    pub open spec fn render(self) -> Seq<char> {
        match self {
            Value::Text(s) => s,
            Value::Integer32(n) => render_int(n as int),
            Value::Float32(t) => t,
        }
    }

    /// The value of kind `kind` that `line` stands for, if there is one.
    /// Every line is text; an integer must fit in 32 bits.
    pub open spec fn parse(kind: Kind, line: Seq<char>) -> Option<Value> {
        match kind {
            Kind::Text => Some(Value::Text(line)),
            Kind::Integer32 => match parse_i32(line) {
                Some(n) => Some(Value::Integer32(n)),
                None => None,
            },
            Kind::Float32 => if is_float_text(line) {
                Some(Value::Float32(line))
            } else {
                None
            },
        }
    }

    /// A floating-point value holds well-formed text.
    pub open spec fn well_formed(self) -> bool {
        self matches Value::Float32(t) ==> is_float_text(t)
    }

    /// The value fits on one line of a file.
    pub open spec fn one_line(self) -> bool {
        !has_char(self.render(), '\n')
    }

    /// Only text can hold a line break.
    pub proof fn lemma_one_line(self)
        requires
            self.well_formed(),
            self matches Value::Text(s) ==> !has_char(s, '\n'),
        ensures
            self.one_line(),
    {
        match self {
            Value::Text(_) => {},
            Value::Integer32(n) => {
                lemma_render_int_chars(n as int);
                let r = render_int(n as int);
                if has_char(r, '\n') {
                    let i = choose|i: int| 0 <= i < r.len() && r[i] == '\n';
                    assert(is_digit(r[i]) || r[i] == '-');
                }
            },
            Value::Float32(t) => {
                lemma_float_text_one_line(t);
            },
        }
    }

    /// Reading the line of a well-formed value as its own kind gives the
    /// value back.
    pub proof fn lemma_parse_render(self)
        requires
            self.well_formed(),
        ensures
            Value::parse(self.kind(), self.render()) == Some(self),
    {
        match self {
            Value::Integer32(n) => {
                lemma_parse_render_int(n as int);
            },
            _ => {},
        }
    }
}

impl View for DataType {
    type V = Value;

    open spec fn view(&self) -> Value {
        match self {
            DataType::String(s) => Value::Text(s@),
            DataType::Integer32(n) => Value::Integer32(*n),
            DataType::Float32(t) => Value::Float32(t@),
        }
    }
}

impl DataType {
    /// The kind of this value.
    pub fn kind(&self) -> (k: Kind)
        ensures
            k == self@.kind(),
    {
        match self {
            DataType::String(_) => Kind::Text,
            DataType::Integer32(_) => Kind::Integer32,
            DataType::Float32(_) => Kind::Float32,
        }
    }

    /// The canonical type name of this value: `String`, `i32` or `f32`.
    pub fn name(&self) -> (s: String)
        ensures
            s@ == self@.kind().tag(),
    {
        self.kind().name()
    }

    /// A copy of this value.
    pub fn duplicate(&self) -> (r: DataType)
        ensures
            r@ == self@,
    {
        match self {
            DataType::String(s) => DataType::String(s.clone()),
            DataType::Integer32(n) => DataType::Integer32(*n),
            DataType::Float32(t) => DataType::Float32(t.duplicate()),
        }
    }

    /// Appends the line that stands for this value in a file.
    pub fn push_line(&self, out: &mut String)
        ensures
            final(out)@ == old(out)@ + self@.render(),
    {
        match self {
            DataType::String(s) => {
                out.push_str(s.as_str());
            },
            DataType::Integer32(n) => {
                push_i32(out, *n);
            },
            DataType::Float32(t) => {
                out.push_str(t.as_str());
            },
        }
    }
}

/// The values of a column, as mathematical values.
pub open spec fn values_of(v: Seq<DataType>) -> Seq<Value> {
    v.map_values(|d: DataType| d@)
}

} // verus!
