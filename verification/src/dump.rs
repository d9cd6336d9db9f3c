//! Serialisation: a host object becomes a tree of YAML nodes.

use vstd::prelude::*;
use vstd::string::{StringExecFns, StrSliceExecFns};
use crate::bigint::{big_to_decimal, signed_decimal_chars};
use crate::datetime::{Date, Time};
use crate::host::{
    object_pair_views, object_views, optional_text, HostDateTime, HostObject, HostObjectView,
    HostZone,
};
use crate::text::{decimal_string, padded_decimal, push_padded, str_eq};
use crate::yaml::{
    lemma_mapping_view, lemma_sequence_view, node_views, pair_views, YamlNode, YamlView,
};

verus! {

/// Why an object cannot be serialised.
#[derive(Debug, PartialEq, Eq)]
pub enum EncodeError {
    /// The object's type has no place in the tree.
    Unsupported { class_name: String, repr: Option<String> },
    /// A sequence or a mapping was used where a key must be text.
    ComplexKey,
}

/// View of an [`EncodeError`].
pub enum EncodeErrorView {
    Unsupported { class_name: Seq<char>, repr: Option<Seq<char>> },
    ComplexKey,
}

impl View for EncodeError {
    type V = EncodeErrorView;

    open spec fn view(&self) -> EncodeErrorView {
        match self {
            EncodeError::Unsupported { class_name, repr } => EncodeErrorView::Unsupported {
                class_name: class_name@,
                repr: optional_text(*repr),
            },
            EncodeError::ComplexKey => EncodeErrorView::ComplexKey,
        }
    }
}

/// The message of an error.
pub open spec fn error_message(e: EncodeErrorView) -> Seq<char> {
    match e {
        EncodeErrorView::Unsupported { class_name, repr } => "Cannot serialize "@ + class_name
            + " ("@ + (match repr {
            Some(text) => text,
            None => "<repr failed>"@,
        }) + ") to YAML"@,
        EncodeErrorView::ComplexKey => "Complex YAML keys (sequences/mappings) are not supported"@,
    }
}

impl EncodeError {
    /// The message of the error: it names the type and shows the object's
    /// printable form, or a note that none could be had.
    pub fn message(&self) -> (r: String)
        ensures
            r@ == error_message(self@),
    {
        match self {
            EncodeError::Unsupported { class_name, repr } => {
                let mut out = String::from_str("Cannot serialize ");
                out.append(class_name.as_str());
                out.append(" (");
                match repr {
                    Some(text) => out.append(text.as_str()),
                    None => out.append("<repr failed>"),
                }
                out.append(") to YAML");
                out
            },
            EncodeError::ComplexKey => String::from_str(
                "Complex YAML keys (sequences/mappings) are not supported",
            ),
        }
    }
}

/// The index of the first `e` or `E` at or after `from`; the length of the
/// text when there is none.
pub open spec fn exponent_mark(text: Seq<char>, from: int) -> int
    decreases text.len() - from,
{
    if from >= text.len() {
        text.len() as int
    } else if text[from] == 'e' || text[from] == 'E' {
        from
    } else {
        exponent_mark(text, from + 1)
    }
}

/// The YAML text of a float, from the host's text of it. The special
/// values get their dotted names. A mantissa without a point gets `.0`
/// before the exponent, so that the token reads as a float; the exponent
/// mark is written `e`.
pub open spec fn yaml_float(repr: Seq<char>) -> Seq<char> {
    if repr == "inf"@ {
        ".inf"@
    } else if repr == "-inf"@ {
        "-.inf"@
    } else if repr == "nan"@ {
        ".nan"@
    } else {
        let at = exponent_mark(repr, 0);
        if at >= repr.len() {
            repr
        } else if repr.take(at).contains('.') {
            repr.take(at) + "e"@ + repr.skip(at + 1)
        } else {
            repr.take(at) + ".0e"@ + repr.skip(at + 1)
        }
    }
}

/// The decimal numeral of `n`, zero-padded to `width` characters with the
/// sign counted in.
pub open spec fn padded_signed(n: int, width: nat) -> Seq<char> {
    if n < 0 {
        "-"@ + padded_decimal((-n) as nat, (width - 1) as nat)
    } else {
        padded_decimal(n as nat, width)
    }
}

/// `YYYY-MM-DD`.
pub open spec fn date_text(d: Date) -> Seq<char> {
    padded_signed(d.year as int, 4) + "-"@ + padded_decimal(d.month as nat, 2) + "-"@
        + padded_decimal(d.day as nat, 2)
}

/// `HH:MM:SS`.
pub open spec fn clock_text(t: Time) -> Seq<char> {
    padded_decimal(t.hour as nat, 2) + ":"@ + padded_decimal(t.minute as nat, 2) + ":"@
        + padded_decimal(t.second as nat, 2)
}

/// `digits` without its trailing zeros, but never shorter than `min`.
pub open spec fn trim_zeros(digits: Seq<char>, min: nat) -> Seq<char>
    decreases digits.len(),
{
    if digits.len() > min && digits.last() == '0' {
        trim_zeros(digits.drop_last(), min)
    } else {
        digits
    }
}

/// The fraction of a second: nothing for zero microseconds; else a point
/// and the six digits of the microseconds, trimmed of trailing zeros down
/// to one digit for UTC and two otherwise.
pub open spec fn fraction_text(microsecond: nat, utc: bool) -> Seq<char> {
    if microsecond == 0 {
        Seq::empty()
    } else {
        "."@ + trim_zeros(
            padded_decimal(microsecond, 6),
            if utc {
                1
            } else {
                2
            },
        )
    }
}

/// `+HH:MM` or `-HH:MM` for an offset of so many seconds.
pub open spec fn offset_text(total: int) -> Seq<char> {
    let minutes: int = if total < 0 {
        (-total) / 60
    } else {
        total / 60
    };
    (if total < 0 {
        "-"@
    } else {
        "+"@
    }) + padded_decimal((minutes / 60) as nat, 2) + ":"@ + padded_decimal((minutes % 60) as nat, 2)
}

/// The suffix of a zone: `Z` for UTC, the offset for a fixed offset,
/// nothing where there is no zone or its offset is not known.
pub open spec fn zone_text(zone: HostZone) -> Seq<char> {
    match zone {
        HostZone::Utc => "Z"@,
        HostZone::Offset { days, seconds } => offset_text(days * 86_400 + seconds),
        _ => Seq::empty(),
    }
}

/// `YYYY-MM-DDTHH:MM:SS`, the fraction and the zone.
pub open spec fn datetime_text(dt: HostDateTime) -> Seq<char> {
    date_text(dt.date) + "T"@ + clock_text(dt.time) + fraction_text(
        dt.time.microsecond as nat,
        dt.zone is Utc,
    ) + zone_text(dt.zone)
}

/// All the results when none is an error; else the first error.
pub open spec fn collect<T, E>(results: Seq<Result<T, E>>) -> Result<Seq<T>, E>
    decreases results.len(),
{
    if results.len() == 0 {
        Ok(Seq::empty())
    } else {
        match collect(results.drop_last()) {
            Err(e) => Err(e),
            Ok(head) => match results.last() {
                Ok(t) => Ok(head.push(t)),
                Err(e) => Err(e),
            },
        }
    }
}

/// A pair of results as the result of a pair; the key's error comes first.
pub open spec fn both<T, E>(key: Result<T, E>, value: Result<T, E>) -> Result<(T, T), E> {
    match key {
        Err(e) => Err(e),
        Ok(k) => match value {
            Ok(v) => Ok((k, v)),
            Err(e) => Err(e),
        },
    }
}

/// The nodes of a list of objects, each with its error.
pub open spec fn yaml_of_each(items: Seq<HostObjectView>) -> Seq<Result<YamlView, EncodeErrorView>>
    decreases items,
{
    Seq::new(
        items.len(),
        |i: int|
            if 0 <= i < items.len() {
                yaml_of(items[i])
            } else {
                Ok(YamlView::Null)
            },
    )
}

/// The pairs of nodes of a list of pairs of objects, each with its error.
pub open spec fn yaml_of_each_pair(pairs: Seq<(HostObjectView, HostObjectView)>) -> Seq<
    Result<(YamlView, YamlView), EncodeErrorView>,
>
    decreases pairs,
{
    Seq::new(
        pairs.len(),
        |i: int|
            if 0 <= i < pairs.len() {
                both(yaml_of(pairs[i].0), yaml_of(pairs[i].1))
            } else {
                Ok((YamlView::Null, YamlView::Null))
            },
    )
}

/// The node that an object serialises to, or the error of the first object
/// inside it that cannot be serialised. Lists and tuples become sequences;
/// sets become mappings from each member to null; dicts become mappings,
/// in the order of the host.
pub open spec fn yaml_of(obj: HostObjectView) -> Result<YamlView, EncodeErrorView>
    decreases obj,
{
    match obj {
        HostObjectView::Str(s) => Ok(YamlView::Text(s)),
        HostObjectView::Null => Ok(YamlView::Null),
        HostObjectView::Bool(b) => Ok(YamlView::Boolean(b)),
        HostObjectView::Int(n) => Ok(YamlView::Integer(n)),
        HostObjectView::BigInt(n) => Ok(YamlView::Representation(signed_decimal_chars(n))),
        HostObjectView::Float(r) => Ok(YamlView::Representation(yaml_float(r))),
        HostObjectView::DateTime(dt) => Ok(YamlView::Text(datetime_text(dt))),
        HostObjectView::Date(d) => Ok(YamlView::Text(date_text(d))),
        HostObjectView::Tuple(items) => match collect(yaml_of_each(items)) {
            Ok(nodes) => Ok(YamlView::Sequence(nodes)),
            Err(e) => Err(e),
        },
        HostObjectView::List(items) => match collect(yaml_of_each(items)) {
            Ok(nodes) => Ok(YamlView::Sequence(nodes)),
            Err(e) => Err(e),
        },
        HostObjectView::MutableSet(items) => match collect(yaml_of_each(items)) {
            Ok(nodes) => Ok(YamlView::Mapping(null_valued(nodes))),
            Err(e) => Err(e),
        },
        HostObjectView::FrozenSet(items) => match collect(yaml_of_each(items)) {
            Ok(nodes) => Ok(YamlView::Mapping(null_valued(nodes))),
            Err(e) => Err(e),
        },
        HostObjectView::Dict(pairs) => match collect(yaml_of_each_pair(pairs)) {
            Ok(nodes) => Ok(YamlView::Mapping(nodes)),
            Err(e) => Err(e),
        },
        HostObjectView::Other { class_name, repr } => Err(
            EncodeErrorView::Unsupported { class_name, repr },
        ),
    }
}

/// Each key paired with null.
pub open spec fn null_valued(keys: Seq<YamlView>) -> Seq<(YamlView, YamlView)> {
    Seq::new(keys.len(), |i: int| (keys[i], YamlView::Null))
}

/// The text that a mapping key stands for, or the error for a key that is
/// a collection.
pub open spec fn key_text(key: YamlView) -> Result<Seq<char>, EncodeErrorView> {
    match key {
        YamlView::Text(s) => Ok(s),
        YamlView::Representation(s) => Ok(s),
        YamlView::Integer(n) => Ok(signed_decimal_chars(n as int)),
        YamlView::Boolean(b) => Ok(
            if b {
                "true"@
            } else {
                "false"@
            },
        ),
        YamlView::Null => Ok("null"@),
        _ => Err(EncodeErrorView::ComplexKey),
    }
}

/// Once a result is an error and all before it are not, the whole collects
/// to that error.
pub proof fn lemma_collect_error<T, E>(results: Seq<Result<T, E>>, at: int, upto: int)
    requires
        0 <= at < upto <= results.len(),
        collect(results.take(at)) is Ok,
        results[at] is Err,
    ensures
        collect(results.take(upto)) == Err::<Seq<T>, E>(results[at]->Err_0),
    decreases upto - at,
{
    assert(results.take(upto).drop_last() =~= results.take(upto - 1));
    if upto - 1 > at {
        lemma_collect_error(results, at, upto - 1);
    }
}

/// Collecting one more result that is no error appends it.
pub proof fn lemma_collect_step<T, E>(results: Seq<Result<T, E>>, at: int)
    requires
        0 <= at < results.len(),
        collect(results.take(at)) is Ok,
        results[at] is Ok,
    ensures
        collect(results.take(at + 1)) == Ok::<Seq<T>, E>(
            collect(results.take(at))->Ok_0.push(results[at]->Ok_0),
        ),
{
    assert(results.take(at + 1).drop_last() =~= results.take(at));
}

/// Renders the host's text of a float as YAML.
pub fn to_yaml_float(repr: &str) -> (r: String)
    ensures
        r@ == yaml_float(repr@),
{
    if str_eq(repr, "inf") {
        return String::from_str(".inf");
    }
    if str_eq(repr, "-inf") {
        return String::from_str("-.inf");
    }
    if str_eq(repr, "nan") {
        return String::from_str(".nan");
    }
    let total = repr.unicode_len();
    let mut at: usize = 0;
    let mut pointed = false;
    while at < total && !(repr.get_char(at) == 'e' || repr.get_char(at) == 'E')
        invariant
            at <= total == repr@.len(),
            exponent_mark(repr@, 0) == exponent_mark(repr@, at as int),
            pointed == repr@.take(at as int).contains('.'),
        decreases total - at,
    {
        let c = repr.get_char(at);
        proof {
            let prev = repr@.take(at as int);
            let next = repr@.take(at + 1);
            if prev.contains('.') {
                let j = choose|j: int| 0 <= j < prev.len() && prev[j] == '.';
                assert(next[j] == '.');
            }
            if c == '.' {
                assert(next[at as int] == '.');
            }
        }
        if c == '.' {
            pointed = true;
        }
        at += 1;
    }
    if at >= total {
        return String::from_str(repr);
    }
    let mut out = String::from_str(repr.substring_char(0, at));
    if pointed {
        out.append("e");
    } else {
        out.append(".0e");
    }
    out.append(repr.substring_char(at + 1, total));
    out
}

/// Appends a number, zero-padded to `width` with the sign counted in.
fn push_padded_signed(out: &mut String, n: i32, width: usize)
    requires
        width >= 1,
    ensures
        final(out)@ == old(out)@ + padded_signed(n as int, width as nat),
{
    if n < 0 {
        out.append("-");
        push_padded(out, (-(n as i64)) as u64, width - 1);
    } else {
        push_padded(out, n as u64, width);
    }
}

/// Appends `YYYY-MM-DD`.
fn push_date(out: &mut String, d: Date)
    ensures
        final(out)@ == old(out)@ + date_text(d),
{
    push_padded_signed(out, d.year, 4);
    out.append("-");
    push_padded(out, d.month as u64, 2);
    out.append("-");
    push_padded(out, d.day as u64, 2);
}

/// Appends `HH:MM:SS`.
fn push_clock(out: &mut String, t: Time)
    ensures
        final(out)@ == old(out)@ + clock_text(t),
{
    push_padded(out, t.hour as u64, 2);
    out.append(":");
    push_padded(out, t.minute as u64, 2);
    out.append(":");
    push_padded(out, t.second as u64, 2);
}

/// Appends the fraction of a second, if there is one.
fn push_fraction(out: &mut String, microsecond: u32, utc: bool)
    ensures
        final(out)@ == old(out)@ + fraction_text(microsecond as nat, utc),
{
    if microsecond == 0 {
        return ;
    }
    let mut digits = String::new();
    push_padded(&mut digits, microsecond as u64, 6);
    let min_len: usize = if utc {
        1
    } else {
        2
    };
    let text = digits.as_str();
    let mut keep = text.unicode_len();
    proof {
        assert(text@.take(keep as int) =~= text@);
    }
    while keep > min_len && text.get_char(keep - 1) == '0'
        invariant
            keep <= text@.len(),
            trim_zeros(text@, min_len as nat) == trim_zeros(
                text@.take(keep as int),
                min_len as nat,
            ),
        decreases keep,
    {
        proof {
            assert(text@.take(keep as int).drop_last() =~= text@.take(keep - 1));
        }
        keep -= 1;
    }
    out.append(".");
    out.append(text.substring_char(0, keep));
}

/// Appends the suffix of the zone, if it has one.
fn push_zone(out: &mut String, zone: HostZone)
    ensures
        final(out)@ == old(out)@ + zone_text(zone),
{
    match zone {
        HostZone::Utc => {
            out.append("Z");
        },
        HostZone::Offset { days, seconds } => {
            let total: i64 = (days as i64) * 86_400 + (seconds as i64);
            let minutes: u64 = if total < 0 {
                out.append("-");
                ((-total) / 60) as u64
            } else {
                out.append("+");
                (total / 60) as u64
            };
            push_padded(out, minutes / 60, 2);
            out.append(":");
            push_padded(out, minutes % 60, 2);
        },
        _ => {},
    }
}

/// Renders a date as `YYYY-MM-DD`.
pub fn format_date(d: Date) -> (r: String)
    ensures
        r@ == date_text(d),
{
    let mut out = String::new();
    push_date(&mut out, d);
    out
}

/// Renders a datetime as `YYYY-MM-DDTHH:MM:SS`, followed by the fraction
/// of a second where there is one and by the zone where it is known.
pub fn format_datetime(dt: HostDateTime) -> (r: String)
    ensures
        r@ == datetime_text(dt),
{
    let mut out = String::new();
    push_date(&mut out, dt.date);
    out.append("T");
    push_clock(&mut out, dt.time);
    let utc = match dt.zone {
        HostZone::Utc => true,
        _ => false,
    };
    push_fraction(&mut out, dt.time.microsecond, utc);
    push_zone(&mut out, dt.zone);
    out
}

/// Copies an optional string.
fn copy_optional(text: &Option<String>) -> (r: Option<String>)
    ensures
        optional_text(r) == optional_text(*text),
{
    match text {
        Some(t) => Some(t.clone()),
        None => None,
    }
}

/// Serialises each object of a list.
fn nodes_of(items: &Vec<HostObject>) -> (r: Result<Vec<YamlNode>, EncodeError>)
    ensures
        match collect(yaml_of_each(object_views(items@))) {
            Ok(views) => r is Ok && node_views(r->Ok_0@) == views,
            Err(e) => r is Err && r->Err_0@ == e,
        },
    decreases items,
{
    let ghost results = yaml_of_each(object_views(items@));
    let mut out: Vec<YamlNode> = Vec::new();
    let mut i: usize = 0;
    proof {
        assert(node_views(out@) =~= Seq::<YamlView>::empty());
    }
    while i < items.len()
        invariant
            i <= items@.len(),
            results == yaml_of_each(object_views(items@)),
            collect(results.take(i as int)) == Ok::<Seq<YamlView>, EncodeErrorView>(
                node_views(out@),
            ),
        decreases items@.len() - i,
    {
        match to_yaml_value(&items[i]) {
            Ok(node) => {
                proof {
                    lemma_collect_step(results, i as int);
                    assert(node_views(out@.push(node)) =~= node_views(out@).push(node@));
                }
                out.push(node);
            },
            Err(e) => {
                proof {
                    lemma_collect_error(results, i as int, results.len() as int);
                    assert(results.take(results.len() as int) =~= results);
                }
                return Err(e);
            },
        }
        i += 1;
    }
    proof {
        assert(results.take(i as int) =~= results);
    }
    Ok(out)
}

/// Serialises each member of a set as a key with a null value.
fn null_pairs_of(items: &Vec<HostObject>) -> (r: Result<Vec<(YamlNode, YamlNode)>, EncodeError>)
    ensures
        match collect(yaml_of_each(object_views(items@))) {
            Ok(views) => r is Ok && pair_views(r->Ok_0@) == null_valued(views),
            Err(e) => r is Err && r->Err_0@ == e,
        },
    decreases items,
{
    let ghost results = yaml_of_each(object_views(items@));
    let mut out: Vec<(YamlNode, YamlNode)> = Vec::new();
    let mut i: usize = 0;
    while i < items.len()
        invariant
            i <= items@.len(),
            results == yaml_of_each(object_views(items@)),
            collect(results.take(i as int)) is Ok,
            pair_views(out@) == null_valued(collect(results.take(i as int))->Ok_0),
        decreases items@.len() - i,
    {
        match to_yaml_value(&items[i]) {
            Ok(node) => {
                proof {
                    lemma_collect_step(results, i as int);
                    let before = collect(results.take(i as int))->Ok_0;
                    let after = out@.push((node, YamlNode::Null));
                    assert(pair_views(out@).len() == before.len());
                    assert forall|j: int| 0 <= j < after.len() implies pair_views(after)[j]
                        == null_valued(before.push(node@))[j] by {
                        if j < out@.len() {
                            assert(pair_views(out@)[j] == null_valued(before)[j]);
                        }
                    }
                }
                out.push((node, YamlNode::Null));
            },
            Err(e) => {
                proof {
                    lemma_collect_error(results, i as int, results.len() as int);
                    assert(results.take(results.len() as int) =~= results);
                }
                return Err(e);
            },
        }
        i += 1;
    }
    proof {
        assert(results.take(i as int) =~= results);
    }
    Ok(out)
}

/// Serialises each key and value of a dict.
fn pairs_of(pairs: &Vec<(HostObject, HostObject)>) -> (r: Result<
    Vec<(YamlNode, YamlNode)>,
    EncodeError,
>)
    ensures
        match collect(yaml_of_each_pair(object_pair_views(pairs@))) {
            Ok(views) => r is Ok && pair_views(r->Ok_0@) == views,
            Err(e) => r is Err && r->Err_0@ == e,
        },
    decreases pairs,
{
    let ghost results = yaml_of_each_pair(object_pair_views(pairs@));
    let mut out: Vec<(YamlNode, YamlNode)> = Vec::new();
    let mut i: usize = 0;
    proof {
        assert(pair_views(out@) =~= Seq::<(YamlView, YamlView)>::empty());
    }
    while i < pairs.len()
        invariant
            i <= pairs@.len(),
            results == yaml_of_each_pair(object_pair_views(pairs@)),
            collect(results.take(i as int)) == Ok::<Seq<(YamlView, YamlView)>, EncodeErrorView>(
                pair_views(out@),
            ),
        decreases pairs@.len() - i,
    {
        proof {
            assert(results[i as int] == both(
                yaml_of(pairs@[i as int].0@),
                yaml_of(pairs@[i as int].1@),
            ));
        }
        let pair = &pairs[i];
        let key = match to_yaml_value(&pair.0) {
            Ok(node) => node,
            Err(e) => {
                proof {
                    lemma_collect_error(results, i as int, results.len() as int);
                    assert(results.take(results.len() as int) =~= results);
                }
                return Err(e);
            },
        };
        let value = match to_yaml_value(&pair.1) {
            Ok(node) => node,
            Err(e) => {
                proof {
                    lemma_collect_error(results, i as int, results.len() as int);
                    assert(results.take(results.len() as int) =~= results);
                }
                return Err(e);
            },
        };
        proof {
            lemma_collect_step(results, i as int);
            assert(pair_views(out@.push((key, value))) =~= pair_views(out@).push((key@, value@)));
        }
        out.push((key, value));
        i += 1;
    }
    proof {
        assert(results.take(i as int) =~= results);
    }
    Ok(out)
}

/// Serialises a host object. Null, booleans, integers and strings map
/// directly; an arbitrary-precision integer becomes its exact decimal
/// text; a float, a date and a datetime are rendered; lists and tuples
/// become sequences; sets become mappings to null; dicts become mappings.
/// An object of any other type is an error that names the type.
pub fn to_yaml_value(obj: &HostObject) -> (r: Result<YamlNode, EncodeError>)
    ensures
        match yaml_of(obj@) {
            Ok(view) => r is Ok && r->Ok_0@ == view,
            Err(e) => r is Err && r->Err_0@ == e,
        },
    decreases obj,
{
    match obj {
        HostObject::Str(s) => Ok(YamlNode::String(s.clone())),
        HostObject::Null => Ok(YamlNode::Null),
        HostObject::Bool(b) => Ok(YamlNode::Boolean(*b)),
        HostObject::Int(n) => Ok(YamlNode::Integer(*n)),
        HostObject::BigInt(n) => Ok(YamlNode::Representation(big_to_decimal(n))),
        HostObject::Float(repr) => Ok(YamlNode::Representation(to_yaml_float(repr.as_str()))),
        HostObject::DateTime(dt) => Ok(YamlNode::String(format_datetime(*dt))),
        HostObject::Date(d) => Ok(YamlNode::String(format_date(*d))),
        HostObject::Tuple(items) => match nodes_of(items) {
            Ok(nodes) => {
                proof {
                    lemma_sequence_view(nodes);
                }
                Ok(YamlNode::Sequence(nodes))
            },
            Err(e) => Err(e),
        },
        HostObject::List(items) => match nodes_of(items) {
            Ok(nodes) => {
                proof {
                    lemma_sequence_view(nodes);
                }
                Ok(YamlNode::Sequence(nodes))
            },
            Err(e) => Err(e),
        },
        HostObject::MutableSet(items) => match null_pairs_of(items) {
            Ok(pairs) => {
                proof {
                    lemma_mapping_view(pairs);
                }
                Ok(YamlNode::Mapping(pairs))
            },
            Err(e) => Err(e),
        },
        HostObject::FrozenSet(items) => match null_pairs_of(items) {
            Ok(pairs) => {
                proof {
                    lemma_mapping_view(pairs);
                }
                Ok(YamlNode::Mapping(pairs))
            },
            Err(e) => Err(e),
        },
        HostObject::Dict(entries) => match pairs_of(entries) {
            Ok(pairs) => {
                proof {
                    lemma_mapping_view(pairs);
                }
                Ok(YamlNode::Mapping(pairs))
            },
            Err(e) => Err(e),
        },
        HostObject::Other { class_name, repr } => Err(
            EncodeError::Unsupported { class_name: class_name.clone(), repr: copy_optional(repr) },
        ),
    }
}

/// The text that a mapping key stands for: a string or a plain scalar as
/// it is, an integer in decimal, a boolean as `true` or `false`, null as
/// `null`. A sequence or a mapping used as a key is an error.
pub fn yaml_key_to_string(key: &YamlNode) -> (r: Result<String, EncodeError>)
    ensures
        match key_text(key@) {
            Ok(text) => r is Ok && r->Ok_0@ == text,
            Err(e) => r is Err && r->Err_0@ == e,
        },
{
    match key {
        YamlNode::String(s) => Ok(s.clone()),
        YamlNode::Representation(s) => Ok(s.clone()),
        YamlNode::Integer(n) => {
            let mut out = String::new();
            if *n < 0 {
                out.append("-");
                out.append(decimal_string((-(*n as i128)) as u64).as_str());
            } else {
                out.append(decimal_string(*n as u64).as_str());
            }
            proof {
                reveal_strlit("-");
            }
            Ok(out)
        },
        YamlNode::Boolean(b) => Ok(
            if *b {
                String::from_str("true")
            } else {
                String::from_str("false")
            },
        ),
        YamlNode::Null => Ok(String::from_str("null")),
        _ => Err(EncodeError::ComplexKey),
    }
}

} // verus!
