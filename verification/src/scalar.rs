//! Resolution of a scalar token into a typed node.

use vstd::prelude::*;
use vstd::string::StringExecFns;
use vstd::utf8::encode_utf8;
use crate::arena::{forward_only, Arena};
use crate::float::{parse_float, spec_parse_float};
use crate::integer::{parse_int, spec_parse_int};
use crate::text::str_eq;
use crate::value::{NodeId, Value, ValueView};

verus! {

/// How a scalar was written.
#[derive(Debug, Clone, Copy, PartialEq, Eq, Structural)]
pub enum Style {
    Plain,
    SingleQuoted,
    DoubleQuoted,
    Literal,
    Folded,
}

/// An explicit tag: its handle, and the suffix that names the type.
#[derive(Debug, Clone, PartialEq, Eq)]
pub struct ScalarTag {
    pub handle: String,
    pub suffix: String,
}

/// One of the literals of null: `null`, `Null`, `NULL`, `~`.
pub open spec fn null_literal(text: Seq<char>) -> bool {
    text == "null"@ || text == "Null"@ || text == "NULL"@ || text == "~"@
}

/// The truth value that one of the six boolean literals spells.
pub open spec fn bool_literal(text: Seq<char>) -> Option<bool> {
    if text == "true"@ || text == "True"@ || text == "TRUE"@ {
        Some(true)
    } else if text == "false"@ || text == "False"@ || text == "FALSE"@ {
        Some(false)
    } else {
        None
    }
}

/// The handle of the core schema.
pub open spec fn core_schema_handle() -> Seq<char> {
    "tag:yaml.org,2002:"@
}

/// The message for text that does not fit the grammar of its tag.
pub open spec fn invalid_value_message(text: Seq<char>, suffix: Seq<char>) -> Seq<char> {
    "Invalid value '"@ + text + "' for '!!"@ + suffix + "' tag"@
}

/// The message for a suffix that the core schema does not have.
pub open spec fn invalid_tag_message(suffix: Seq<char>) -> Seq<char> {
    "Invalid tag: '!!"@ + suffix + "'"@
}

/// The node that text resolves to under a tag of the core schema, or the
/// message of the error.
pub open spec fn resolve_tagged(text: Seq<char>, suffix: Seq<char>) -> Result<
    ValueView,
    Seq<char>,
> {
    if suffix == "int"@ {
        match spec_parse_int(encode_utf8(text)) {
            Some(v) => Ok(v),
            None => Err(invalid_value_message(text, suffix)),
        }
    } else if suffix == "float"@ {
        match spec_parse_float(encode_utf8(text)) {
            Some(f) => Ok(ValueView::Float(f)),
            None => Err(invalid_value_message(text, suffix)),
        }
    } else if suffix == "bool"@ {
        match bool_literal(text) {
            Some(b) => Ok(ValueView::Boolean(b)),
            None => Err(invalid_value_message(text, suffix)),
        }
    } else if suffix == "null"@ {
        if text.len() == 0 || null_literal(text) {
            Ok(ValueView::Null)
        } else {
            Err(invalid_value_message(text, suffix))
        }
    } else if suffix == "binary"@ {
        Ok(ValueView::Text(text))
    } else if suffix == "str"@ {
        Ok(ValueView::TextExplicit(text))
    } else {
        Err(invalid_tag_message(suffix))
    }
}

/// The node that a plain scalar without a tag resolves to: null, then a
/// boolean, then an integer, then a float, else the text itself.
pub open spec fn resolve_plain(text: Seq<char>) -> ValueView {
    if text.len() == 0 || null_literal(text) {
        ValueView::Null
    } else if bool_literal(text) is Some {
        ValueView::Boolean(bool_literal(text)->0)
    } else if spec_parse_int(encode_utf8(text)) is Some {
        spec_parse_int(encode_utf8(text))->0
    } else if spec_parse_float(encode_utf8(text)) is Some {
        ValueView::Float(spec_parse_float(encode_utf8(text))->0)
    } else {
        ValueView::Text(text)
    }
}

/// The node that a scalar resolves to, or the message of the error. A tag
/// of the core schema decides alone; a tag of another schema leaves the
/// text a string; without a tag only plain scalars are typed.
pub open spec fn spec_resolve(
    text: Seq<char>,
    style: Style,
    tag: Option<(Seq<char>, Seq<char>)>,
) -> Result<ValueView, Seq<char>> {
    match tag {
        Some((handle, suffix)) => if handle == core_schema_handle() {
            resolve_tagged(text, suffix)
        } else {
            Ok(ValueView::Text(text))
        },
        None => if style == Style::Plain {
            Ok(resolve_plain(text))
        } else {
            Ok(ValueView::Text(text))
        },
    }
}

/// The view of an optional tag.
pub open spec fn tag_view(tag: Option<&ScalarTag>) -> Option<(Seq<char>, Seq<char>)> {
    match tag {
        Some(t) => Some((t.handle@, t.suffix@)),
        None => None,
    }
}

/// Whether the text is one of the literals of null.
pub fn is_null(s: &str) -> (r: bool)
    ensures
        r == null_literal(s@),
{
    str_eq(s, "null") || str_eq(s, "Null") || str_eq(s, "NULL") || str_eq(s, "~")
}

/// The truth value that the text spells, if it is a boolean literal.
pub fn is_bool(s: &str) -> (r: Option<bool>)
    ensures
        r == bool_literal(s@),
{
    if str_eq(s, "true") || str_eq(s, "True") || str_eq(s, "TRUE") {
        Some(true)
    } else if str_eq(s, "false") || str_eq(s, "False") || str_eq(s, "FALSE") {
        Some(false)
    } else {
        None
    }
}

/// The message for text that does not fit the grammar of its tag.
fn invalid_value(value: &str, suffix: &str) -> (r: String)
    ensures
        r@ == invalid_value_message(value@, suffix@),
{
    let mut message = String::from_str("Invalid value '");
    message.append(value);
    message.append("' for '!!");
    message.append(suffix);
    message.append("' tag");
    message
}

/// The message for a suffix that the core schema does not have.
fn invalid_tag(suffix: &str) -> (r: String)
    ensures
        r@ == invalid_tag_message(suffix@),
{
    let mut message = String::from_str("Invalid tag: '!!");
    message.append(suffix);
    message.append("'");
    message
}

/// The value that text resolves to under a tag of the core schema.
pub fn tagged_value(value: &str, suffix: &str) -> (r: Result<Value, String>)
    ensures
        match resolve_tagged(value@, suffix@) {
            Ok(v) => r is Ok && r->Ok_0@ == v,
            Err(m) => r is Err && r->Err_0@ == m,
        },
{
    if str_eq(suffix, "int") {
        match parse_int(value) {
            Some(v) => Ok(v),
            None => Err(invalid_value(value, suffix)),
        }
    } else if str_eq(suffix, "float") {
        match parse_float(value) {
            Some(f) => Ok(Value::Float(f)),
            None => Err(invalid_value(value, suffix)),
        }
    } else if str_eq(suffix, "bool") {
        match is_bool(value) {
            Some(b) => Ok(Value::Boolean(b)),
            None => Err(invalid_value(value, suffix)),
        }
    } else if str_eq(suffix, "null") {
        if value.is_empty() || is_null(value) {
            Ok(Value::Null)
        } else {
            Err(invalid_value(value, suffix))
        }
    } else if str_eq(suffix, "binary") {
        Ok(Value::String(String::from_str(value)))
    } else if str_eq(suffix, "str") {
        Ok(Value::StringExplicit(String::from_str(value)))
    } else {
        Err(invalid_tag(suffix))
    }
}

/// The value that a plain scalar without a tag resolves to.
pub fn plain_value(value: &str) -> (r: Value)
    ensures
        r@ == resolve_plain(value@),
{
    if value.is_empty() || is_null(value) {
        return Value::Null;
    }
    match is_bool(value) {
        Some(b) => {
            return Value::Boolean(b);
        },
        None => {},
    }
    match parse_int(value) {
        Some(v) => {
            return v;
        },
        None => {},
    }
    match parse_float(value) {
        Some(f) => Value::Float(f),
        None => Value::String(String::from_str(value)),
    }
}

/// Resolves a scalar and stores the node. On success the node is appended
/// to the arena and its id returned; on an error the arena is unchanged.
pub fn resolve_scalar(arena: &mut Arena, value: &str, style: Style, tag: Option<&ScalarTag>) -> (r:
    Result<NodeId, String>)
    ensures
        match spec_resolve(value@, style, tag_view(tag)) {
            Ok(v) => r == Ok::<NodeId, String>(old(arena)@.len() as usize) && final(arena)@ == old(
                arena,
            )@.push(v),
            Err(m) => r is Err && r->Err_0@ == m && final(arena)@ == old(arena)@,
        },
        forward_only(old(arena)@) ==> forward_only(final(arena)@),
{
    let resolved = match tag {
        Some(t) => {
            if str_eq(t.handle.as_str(), "tag:yaml.org,2002:") {
                match tagged_value(value, t.suffix.as_str()) {
                    Ok(v) => v,
                    Err(m) => {
                        return Err(m);
                    },
                }
            } else {
                Value::String(String::from_str(value))
            }
        },
        None => {
            if style == Style::Plain {
                plain_value(value)
            } else {
                Value::String(String::from_str(value))
            }
        },
    };
    proof {
        assert(resolved@.children_below(arena@.len())) by {}
    }
    Ok(arena.push(resolved))
}

} // verus!
