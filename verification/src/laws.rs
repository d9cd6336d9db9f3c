//! Laws that relate the parts of the library to one another.

use vstd::prelude::*;
use vstd::utf8::{encode_utf8, is_ascii_chars, is_ascii_chars_encode_utf8};
use crate::arena::forward_only;
use crate::ascii::{is_digit, MINUS};
use crate::bigint::signed_decimal_chars;
use crate::builder::{lemma_step_wf, owned_tag_view, BuildState};
use crate::decoder::{
    codec_name, decode_message, policy_of, spec_encode, utf8_requested, DecodeError,
    DecodeErrorView,
};
use crate::dump::{exponent_mark, key_text, yaml_float};
use crate::events::ParseEvent;
use crate::float::{float_literal, spec_parse_float};
use crate::host::HostValueView;
use crate::integer::{
    digits_value, hex_value, int_literal, int_literal_value, spec_parse_int, unsigned_part,
};
use crate::materialize::{host_of, ids_below, pairs_below};
use crate::scalar::{resolve_plain, spec_resolve, Style};
use crate::text::{decimal_chars, digit_char};
use crate::value::{NodeId, ValueView};
use crate::yaml::YamlView;

verus! {

/// The characters of a text as bytes, one for one.
pub open spec fn as_bytes(chars: Seq<char>) -> Seq<u8> {
    Seq::new(chars.len(), |i: int| chars[i] as u8)
}

/// The decimal numeral of a number is made of decimal digits, which spell
/// the number.
pub proof fn lemma_decimal_numeral(n: nat)
    ensures
        is_ascii_chars(decimal_chars(n)),
        decimal_chars(n).len() >= 1,
        forall|i: int|
            0 <= i < decimal_chars(n).len() ==> is_digit(#[trigger] as_bytes(decimal_chars(n))[i]),
        digits_value(as_bytes(decimal_chars(n)), 10) == n,
    decreases n,
{
    let chars = decimal_chars(n);
    let bytes = as_bytes(chars);
    let last = digit_char((n % 10) as int);
    if n < 10 {
        assert(bytes =~= seq![last as u8]);
        assert(bytes.drop_last() =~= Seq::<u8>::empty());
        assert(digits_value(bytes.drop_last(), 10) == 0);
        assert(hex_value(bytes.last()) == Some((n % 10) as nat));
    } else {
        lemma_decimal_numeral(n / 10);
        let head = decimal_chars(n / 10);
        assert(bytes.drop_last() =~= as_bytes(head));
        assert(bytes.last() == last as u8);
        assert(hex_value(bytes.last()) == Some((n % 10) as nat));
        assert forall|i: int| 0 <= i < chars.len() implies is_digit(#[trigger] bytes[i]) by {
            if i < head.len() {
                assert(bytes[i] == as_bytes(head)[i]);
            }
        }
        assert forall|i: int| 0 <= i < chars.len() implies '\0' <= #[trigger] chars[i]
        <= '\u{7f}' by {}
    }
}

/// Reading back the decimal text of an integer gives the integer: as a
/// 64-bit node when it fits, as an exact arbitrary-precision node
/// otherwise. So a literal within machine range survives decoding and
/// re-encoding as decimal, and one beyond it is never truncated or wrapped.
pub proof fn law_decimal_round_trip(n: int)
    ensures
        spec_parse_int(encode_utf8(signed_decimal_chars(n))) == Some(
            if i64::MIN <= n <= i64::MAX {
                ValueView::Integer64(n as i64)
            } else {
                ValueView::IntegerBig(n)
            },
        ),
{
    let magnitude: nat = if n < 0 {
        (-n) as nat
    } else {
        n as nat
    };
    let digits = decimal_chars(magnitude);
    let chars = signed_decimal_chars(n);
    lemma_decimal_numeral(magnitude);
    assert forall|i: int| 0 <= i < chars.len() implies '\0' <= #[trigger] chars[i]
        <= '\u{7f}' by {}
    is_ascii_chars_encode_utf8(chars);
    let bytes = encode_utf8(chars);
    assert(bytes =~= as_bytes(chars));
    let body = unsigned_part(bytes);
    if n < 0 {
        assert(bytes[0] == MINUS);
        assert(body =~= as_bytes(digits)) by {}
    } else {
        assert(is_digit(as_bytes(digits)[0]));
        assert(body =~= as_bytes(digits));
    }
    assert(int_literal(bytes));
    assert(int_literal_value(bytes) == n);
}

/// The integer grammar decides alone whether text resolves as an integer.
pub proof fn law_integer_grammar_decides(text: Seq<u8>)
    ensures
        spec_parse_int(text) is Some <==> int_literal(text),
{
}

/// Whatever the float grammar for plain scalars accepts resolves as a
/// float.
pub proof fn law_float_literals_resolve(text: Seq<u8>)
    requires
        float_literal(text),
    ensures
        spec_parse_float(text) is Some,
{
}

/// Without a tag, a scalar that is not plain is a string, whatever its text.
pub proof fn law_quoted_scalars_are_strings(text: Seq<char>, style: Style)
    requires
        style != Style::Plain,
    ensures
        spec_resolve(text, style, None) == Ok::<ValueView, Seq<char>>(ValueView::Text(text)),
{
}

/// Null, booleans and integers read back from their plain text: the text
/// that stands for such a node as a key resolves, as a plain scalar, to
/// the same node.
pub proof fn law_plain_scalars_read_back(node: YamlView)
    requires
        node is Null || node is Boolean || node is Integer,
    ensures
        key_text(node) is Ok,
        resolve_plain(key_text(node)->Ok_0) == match node {
            YamlView::Boolean(b) => ValueView::Boolean(b),
            YamlView::Integer(n) => ValueView::Integer64(n),
            _ => ValueView::Null,
        },
{
    reveal_strlit("null");
    reveal_strlit("Null");
    reveal_strlit("NULL");
    reveal_strlit("~");
    reveal_strlit("true");
    reveal_strlit("True");
    reveal_strlit("TRUE");
    reveal_strlit("false");
    reveal_strlit("False");
    reveal_strlit("FALSE");
    match node {
        YamlView::Integer(n) => {
            let text = key_text(node)->Ok_0;
            let magnitude: nat = if n < 0 {
                (-n) as nat
            } else {
                n as nat
            };
            lemma_decimal_numeral(magnitude);
            let first = text[0] as u8;
            assert(first == MINUS || is_digit(first)) by {
                if n >= 0 {
                    assert(as_bytes(decimal_chars(magnitude))[0] == text[0] as u8);
                }
            }
            law_decimal_round_trip(n as int);
        },
        _ => {},
    }
}

/// An alias whose anchor is not bound, as when it refers to a collection
/// that is still being built, is no error: it stands for a new null node,
/// which materialises as null.
pub proof fn law_unbound_alias_is_null(state: BuildState, id: usize, dates: bool)
    requires
        !state.anchors.contains_key(id),
        state.nodes.len() < usize::MAX,
    ensures
        state.step(ParseEvent::Alias(id)) == Ok::<BuildState, Seq<char>>(
            state.with_node(ValueView::Null).route(state.nodes.len() as usize),
        ),
        host_of(
            state.step(ParseEvent::Alias(id))->Ok_0.nodes,
            state.nodes.len() as usize,
            dates,
        ) == HostValueView::Null,
{
}

/// The arena only grows: a step of the builder keeps every node that was
/// there, under the id it had, and adds at most one.
pub proof fn law_steps_only_append(state: BuildState, event: ParseEvent)
    ensures
        state.step(event) matches Ok(after) ==> state.nodes.len() <= after.nodes.len()
            <= state.nodes.len() + 1 && after.nodes.take(state.nodes.len() as int) == state.nodes,
{
    if state.step(event) is Ok {
        let after = state.step(event)->Ok_0;
        assert(after.nodes == state.nodes || exists|node: ValueView|
            after.nodes == state.nodes.push(node));
    }
}

/// The arena only grows over a whole run of events.
pub proof fn law_runs_only_append(state: BuildState, events: Seq<ParseEvent>)
    ensures
        state.run(events) matches Ok(after) ==> state.nodes.len() <= after.nodes.len()
            && after.nodes.take(state.nodes.len() as int) == state.nodes,
    decreases events.len(),
{
    if events.len() > 0 {
        law_runs_only_append(state, events.drop_last());
        match state.run(events.drop_last()) {
            Ok(middle) => {
                match middle.step(events.last()) {
                    Ok(after) => {
                        assert(after.nodes.take(state.nodes.len() as int) =~= middle.nodes.take(
                            state.nodes.len() as int,
                        ));
                    },
                    Err(_) => {},
                }
            },
            Err(_) => {},
        }
    }
}

/// The builder keeps its invariant over a whole run of events: every id
/// it holds refers to a node of the arena, and every node refers only to
/// nodes before it, so that no cycle can be built.
pub proof fn law_runs_stay_well_formed(state: BuildState, events: Seq<ParseEvent>)
    requires
        state.wf(),
        state.nodes.len() + events.len() <= usize::MAX,
    ensures
        state.run(events) matches Ok(after) ==> after.wf() && after.nodes.len()
            <= state.nodes.len() + events.len(),
    decreases events.len(),
{
    if events.len() > 0 {
        law_runs_stay_well_formed(state, events.drop_last());
        match state.run(events.drop_last()) {
            Ok(middle) => {
                lemma_step_wf(middle, events.last());
            },
            Err(_) => {},
        }
    }
}

/// A label that names no encoding is an error that carries the label,
/// whatever the policy.
pub proof fn law_unknown_label_is_named(data: Seq<u8>, label: Seq<char>, policy: Option<Seq<char>>)
    requires
        !utf8_requested(Some(label)),
        codec_name(label) is None,
    ensures
        spec_encode(data, Some(label), policy) == Err::<Seq<char>, DecodeErrorView>(
            DecodeErrorView::UnknownEncoding(label),
        ),
{
}

/// A policy token that is not known is an error that carries the token,
/// when UTF-8 is asked for or the label names an encoding.
pub proof fn law_unknown_policy_is_named(
    data: Seq<u8>,
    encoding: Option<Seq<char>>,
    token: Seq<char>,
)
    requires
        policy_of(Some(token)) is None,
        utf8_requested(encoding) || codec_name(encoding->0) is Some,
    ensures
        spec_encode(data, encoding, Some(token)) == Err::<Seq<char>, DecodeErrorView>(
            DecodeErrorView::UnknownPolicy(token),
        ),
{
}

/// The message of an error for a label or a policy ends with that label or
/// token.
pub proof fn law_message_names_the_culprit(e: DecodeError)
    ensures
        e matches DecodeError::UnknownEncoding(label) ==> decode_message(e) == "invalid encoding: "@
            + label@,
        e matches DecodeError::UnknownPolicy(token) ==> decode_message(e) == "invalid decoder: "@
            + token@,
{
}

/// The exponent mark is found at or after the start of the search, within
/// the text or at its end.
pub proof fn lemma_exponent_mark_bounds(text: Seq<char>, from: int)
    requires
        0 <= from,
    ensures
        from <= exponent_mark(text, from) || text.len() < from,
        exponent_mark(text, from) <= text.len() || text.len() < from,
    decreases text.len() - from,
{
    if from < text.len() && !(text[from] == 'e' || text[from] == 'E') {
        lemma_exponent_mark_bounds(text, from + 1);
    }
}

/// A float written with an exponent is rendered with a point in its
/// mantissa: before the `e` of the result stands a point, and after it the
/// exponent as the host wrote it.
pub proof fn law_exponent_follows_a_point(repr: Seq<char>)
    requires
        repr != "inf"@ && repr != "-inf"@ && repr != "nan"@,
        exponent_mark(repr, 0) < repr.len(),
    ensures
        exists|k: int|
            0 <= k < yaml_float(repr).len() && #[trigger] yaml_float(repr)[k] == 'e' && yaml_float(
                repr,
            ).take(k).contains('.') && yaml_float(repr).skip(k + 1) == repr.skip(
                exponent_mark(repr, 0) + 1,
            ),
{
    reveal_strlit("e");
    reveal_strlit(".0e");
    let at = exponent_mark(repr, 0);
    lemma_exponent_mark_bounds(repr, 0);
    let mantissa = repr.take(at);
    let out = yaml_float(repr);
    if mantissa.contains('.') {
        assert(out[at] == 'e');
        assert(out.take(at) =~= mantissa);
    } else {
        assert(out[at + 2] == 'e');
        assert(out.take(at + 2)[at] == '.');
    }
}

/// A resolved scalar is never a collection.
pub proof fn law_scalars_have_no_children(
    text: Seq<char>,
    style: Style,
    tag: Option<(Seq<char>, Seq<char>)>,
)
    ensures
        spec_resolve(text, style, tag) matches Ok(v) ==> !(v is Sequence) && !(v is Mapping),
{
}

/// In an arena that refers backwards only, the children of a node come
/// before it.
pub proof fn law_children_come_first(nodes: Seq<ValueView>, id: NodeId)
    requires
        forward_only(nodes),
        id < nodes.len(),
    ensures
        nodes[id as int] matches ValueView::Sequence(items) ==> ids_below(items, id as nat),
        nodes[id as int] matches ValueView::Mapping(pairs) ==> pairs_below(pairs, id as nat),
{
}

} // verus!
