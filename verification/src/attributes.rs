//! Attribute values (`BA_`), attribute defaults (`BA_DEF_DEF_`) and attribute
//! definitions (`BA_DEF_`).
use vstd::prelude::*;
use vstd::slice::slice_subrange;
use crate::outcome::{ParseError, Parsed, halt, either, agrees, ends_within, answers};
use crate::lexical::{
    ByteClass, spec_char, spec_ss, spec_tag, kw, spec_u64_s, spec_i64_digit, spec_double,
    spec_quoted, spec_c_ident, spec_text_till, char_at, ss_at, tag_at, u64_s_at, i64_digit_at,
    double_at, quoted_at, c_ident_at, text_till_at,
};
use crate::signal::{spec_message_id, message_id_at};
use crate::types::{
    AttributeValue, SpecAttributeValue, AttributeValuedForObjectType, SpecObjectAttributeValue,
    DbcElement, SpecDbcElement,
};

verus! {

pub open spec fn spec_attribute_value_uint64(s: Seq<u8>, i: int) -> Parsed<SpecAttributeValue> {
    let v = spec_u64_s(s, i);
    if !(v is Done) {
        halt(v)
    } else {
        Parsed::Done(v.end(), SpecAttributeValue::AttributeValueU64(v.value()))
    }
}

pub fn attribute_value_uint64_at(s: &[u8], i: usize) -> (r: Result<(usize, AttributeValue), ParseError>)
    requires
        i <= s@.len(),
    ensures
        agrees(r, spec_attribute_value_uint64(s@, i as int)),
        ends_within(r, i as int, s@.len() as int),
{
    let (p0, v) = u64_s_at(s, i)?;
    Ok((p0, AttributeValue::AttributeValueU64(v)))
}

pub fn attribute_value_uint64(input: &[u8]) -> (r: Result<(&[u8], AttributeValue), ParseError>)
    ensures
        answers(input@, r, spec_attribute_value_uint64(input@, 0)),
{
    let (j, v) = attribute_value_uint64_at(input, 0)?;
    Ok((slice_subrange(input, j, input.len()), v))
}

pub open spec fn spec_attribute_value_int64(s: Seq<u8>, i: int) -> Parsed<SpecAttributeValue> {
    let v = spec_i64_digit(s, i);
    if !(v is Done) {
        halt(v)
    } else {
        Parsed::Done(v.end(), SpecAttributeValue::AttributeValueI64(v.value()))
    }
}

pub fn attribute_value_int64_at(s: &[u8], i: usize) -> (r: Result<(usize, AttributeValue), ParseError>)
    requires
        i <= s@.len(),
    ensures
        agrees(r, spec_attribute_value_int64(s@, i as int)),
        ends_within(r, i as int, s@.len() as int),
{
    let (p0, v) = i64_digit_at(s, i)?;
    Ok((p0, AttributeValue::AttributeValueI64(v)))
}

pub fn attribute_value_int64(input: &[u8]) -> (r: Result<(&[u8], AttributeValue), ParseError>)
    ensures
        answers(input@, r, spec_attribute_value_int64(input@, 0)),
{
    let (j, v) = attribute_value_int64_at(input, 0)?;
    Ok((slice_subrange(input, j, input.len()), v))
}

pub open spec fn spec_attribute_value_f64(s: Seq<u8>, i: int) -> Parsed<SpecAttributeValue> {
    let v = spec_double(s, i);
    if !(v is Done) {
        halt(v)
    } else {
        Parsed::Done(v.end(), SpecAttributeValue::AttributeValueF64(v.value()))
    }
}

pub fn attribute_value_f64_at(s: &[u8], i: usize) -> (r: Result<(usize, AttributeValue), ParseError>)
    requires
        i <= s@.len(),
    ensures
        agrees(r, spec_attribute_value_f64(s@, i as int)),
        ends_within(r, i as int, s@.len() as int),
{
    let (p0, v) = double_at(s, i)?;
    Ok((p0, AttributeValue::AttributeValueF64(v)))
}

pub fn attribute_value_f64(input: &[u8]) -> (r: Result<(&[u8], AttributeValue), ParseError>)
    ensures
        answers(input@, r, spec_attribute_value_f64(input@, 0)),
{
    let (j, v) = attribute_value_f64_at(input, 0)?;
    Ok((slice_subrange(input, j, input.len()), v))
}

pub open spec fn spec_attribute_value_charstr(s: Seq<u8>, i: int) -> Parsed<SpecAttributeValue> {
    let v = spec_quoted(s, i);
    if !(v is Done) {
        halt(v)
    } else {
        Parsed::Done(v.end(), SpecAttributeValue::AttributeValueCharString(v.value()))
    }
}

pub fn attribute_value_charstr_at(s: &[u8], i: usize) -> (r: Result<(usize, AttributeValue), ParseError>)
    requires
        i <= s@.len(),
        !(spec_attribute_value_charstr(s@, i as int) is Abort),
    ensures
        agrees(r, spec_attribute_value_charstr(s@, i as int)),
        ends_within(r, i as int, s@.len() as int),
{
    let (p0, v) = quoted_at(s, i)?;
    Ok((p0, AttributeValue::AttributeValueCharString(v)))
}

pub fn attribute_value_charstr(input: &[u8]) -> (r: Result<(&[u8], AttributeValue), ParseError>)
    requires
        !(spec_attribute_value_charstr(input@, 0) is Abort),
    ensures
        answers(input@, r, spec_attribute_value_charstr(input@, 0)),
{
    let (j, v) = attribute_value_charstr_at(input, 0)?;
    Ok((slice_subrange(input, j, input.len()), v))
}

/// An attribute value: an unsigned or signed integer, a decimal number, or quoted text,
/// tried in this order.
pub open spec fn spec_attribute_value(s: Seq<u8>, i: int) -> Parsed<SpecAttributeValue> {
    either(spec_attribute_value_uint64(s, i), either(spec_attribute_value_int64(s, i), either(spec_attribute_value_f64(s, i), spec_attribute_value_charstr(s, i))))
}

pub fn attribute_value_at(s: &[u8], i: usize) -> (r: Result<(usize, AttributeValue), ParseError>)
    requires
        i <= s@.len(),
        !(spec_attribute_value(s@, i as int) is Abort),
    ensures
        agrees(r, spec_attribute_value(s@, i as int)),
        ends_within(r, i as int, s@.len() as int),
{
    match attribute_value_uint64_at(s, i) {
        Err(ParseError::Error) => {}
        other => {
            return other;
        },
    }
    match attribute_value_int64_at(s, i) {
        Err(ParseError::Error) => {}
        other => {
            return other;
        },
    }
    match attribute_value_f64_at(s, i) {
        Err(ParseError::Error) => {}
        other => {
            return other;
        },
    }
    attribute_value_charstr_at(s, i)
}

pub fn attribute_value(input: &[u8]) -> (r: Result<(&[u8], AttributeValue), ParseError>)
    requires
        !(spec_attribute_value(input@, 0) is Abort),
    ensures
        answers(input@, r, spec_attribute_value(input@, 0)),
{
    let (j, v) = attribute_value_at(input, 0)?;
    Ok((slice_subrange(input, j, input.len()), v))
}

/// `BU_`, a node name and a value.
pub open spec fn spec_network_node_attribute_value(s: Seq<u8>, i: int) -> Parsed<SpecObjectAttributeValue> {
    let x0 = spec_tag(s, i, kw("BU_"));
    if !(x0 is Done) {
        halt(x0)
    } else {
        let x1 = spec_ss(s, x0.end());
        if !(x1 is Done) {
            halt(x1)
        } else {
            let node = spec_c_ident(s, x1.end());
            if !(node is Done) {
                halt(node)
            } else {
                let x3 = spec_ss(s, node.end());
                if !(x3 is Done) {
                    halt(x3)
                } else {
                    let v = spec_attribute_value(s, x3.end());
                    if !(v is Done) {
                        halt(v)
                    } else {
                        Parsed::Done(v.end(), SpecObjectAttributeValue::NetworkNodeAttributeValue(node.value(), v.value()))
                    }
                }
            }
        }
    }
}

pub fn network_node_attribute_value_at(s: &[u8], i: usize) -> (r: Result<(usize, AttributeValuedForObjectType), ParseError>)
    requires
        i <= s@.len(),
        !(spec_network_node_attribute_value(s@, i as int) is Abort),
    ensures
        agrees(r, spec_network_node_attribute_value(s@, i as int)),
        ends_within(r, i as int, s@.len() as int),
{
    let p0 = tag_at(s, i, "BU_")?;
    let p1 = ss_at(s, p0)?;
    let (p2, node) = c_ident_at(s, p1)?;
    let p3 = ss_at(s, p2)?;
    let (p4, v) = attribute_value_at(s, p3)?;
    Ok((p4, AttributeValuedForObjectType::NetworkNodeAttributeValue(node, v)))
}

pub fn network_node_attribute_value(input: &[u8]) -> (r: Result<(&[u8], AttributeValuedForObjectType), ParseError>)
    requires
        !(spec_network_node_attribute_value(input@, 0) is Abort),
    ensures
        answers(input@, r, spec_network_node_attribute_value(input@, 0)),
{
    let (j, v) = network_node_attribute_value_at(input, 0)?;
    Ok((slice_subrange(input, j, input.len()), v))
}

/// `BO_`, a message id and a value.
pub open spec fn spec_message_definition_attribute_value(s: Seq<u8>, i: int) -> Parsed<SpecObjectAttributeValue> {
    let x0 = spec_tag(s, i, kw("BO_"));
    if !(x0 is Done) {
        halt(x0)
    } else {
        let x1 = spec_ss(s, x0.end());
        if !(x1 is Done) {
            halt(x1)
        } else {
            let id = spec_message_id(s, x1.end());
            if !(id is Done) {
                halt(id)
            } else {
                let x3 = spec_ss(s, id.end());
                if !(x3 is Done) {
                    halt(x3)
                } else {
                    let v = spec_attribute_value(s, x3.end());
                    if !(v is Done) {
                        halt(v)
                    } else {
                        Parsed::Done(v.end(), SpecObjectAttributeValue::MessageDefinitionAttributeValue(id.value(), v.value()))
                    }
                }
            }
        }
    }
}

pub fn message_definition_attribute_value_at(s: &[u8], i: usize) -> (r: Result<(usize, AttributeValuedForObjectType), ParseError>)
    requires
        i <= s@.len(),
        !(spec_message_definition_attribute_value(s@, i as int) is Abort),
    ensures
        agrees(r, spec_message_definition_attribute_value(s@, i as int)),
        ends_within(r, i as int, s@.len() as int),
{
    let p0 = tag_at(s, i, "BO_")?;
    let p1 = ss_at(s, p0)?;
    let (p2, id) = message_id_at(s, p1)?;
    let p3 = ss_at(s, p2)?;
    let (p4, v) = attribute_value_at(s, p3)?;
    Ok((p4, AttributeValuedForObjectType::MessageDefinitionAttributeValue(id, v)))
}

pub fn message_definition_attribute_value(input: &[u8]) -> (r: Result<(&[u8], AttributeValuedForObjectType), ParseError>)
    requires
        !(spec_message_definition_attribute_value(input@, 0) is Abort),
    ensures
        answers(input@, r, spec_message_definition_attribute_value(input@, 0)),
{
    let (j, v) = message_definition_attribute_value_at(input, 0)?;
    Ok((slice_subrange(input, j, input.len()), v))
}

/// `SG_`, a message id, a signal name and a value.
pub open spec fn spec_signal_attribute_value(s: Seq<u8>, i: int) -> Parsed<SpecObjectAttributeValue> {
    let x0 = spec_tag(s, i, kw("SG_"));
    if !(x0 is Done) {
        halt(x0)
    } else {
        let x1 = spec_ss(s, x0.end());
        if !(x1 is Done) {
            halt(x1)
        } else {
            let id = spec_message_id(s, x1.end());
            if !(id is Done) {
                halt(id)
            } else {
                let x3 = spec_ss(s, id.end());
                if !(x3 is Done) {
                    halt(x3)
                } else {
                    let name = spec_c_ident(s, x3.end());
                    if !(name is Done) {
                        halt(name)
                    } else {
                        let x5 = spec_ss(s, name.end());
                        if !(x5 is Done) {
                            halt(x5)
                        } else {
                            let v = spec_attribute_value(s, x5.end());
                            if !(v is Done) {
                                halt(v)
                            } else {
                                Parsed::Done(v.end(), SpecObjectAttributeValue::SignalAttributeValue(id.value(), name.value(), v.value()))
                            }
                        }
                    }
                }
            }
        }
    }
}

pub fn signal_attribute_value_at(s: &[u8], i: usize) -> (r: Result<(usize, AttributeValuedForObjectType), ParseError>)
    requires
        i <= s@.len(),
        !(spec_signal_attribute_value(s@, i as int) is Abort),
    ensures
        agrees(r, spec_signal_attribute_value(s@, i as int)),
        ends_within(r, i as int, s@.len() as int),
{
    let p0 = tag_at(s, i, "SG_")?;
    let p1 = ss_at(s, p0)?;
    let (p2, id) = message_id_at(s, p1)?;
    let p3 = ss_at(s, p2)?;
    let (p4, name) = c_ident_at(s, p3)?;
    let p5 = ss_at(s, p4)?;
    let (p6, v) = attribute_value_at(s, p5)?;
    Ok((p6, AttributeValuedForObjectType::SignalAttributeValue(id, name, v)))
}

pub fn signal_attribute_value(input: &[u8]) -> (r: Result<(&[u8], AttributeValuedForObjectType), ParseError>)
    requires
        !(spec_signal_attribute_value(input@, 0) is Abort),
    ensures
        answers(input@, r, spec_signal_attribute_value(input@, 0)),
{
    let (j, v) = signal_attribute_value_at(input, 0)?;
    Ok((slice_subrange(input, j, input.len()), v))
}

/// `EV_`, an environment variable name and a value.
pub open spec fn spec_env_variable_attribute_value(s: Seq<u8>, i: int) -> Parsed<SpecObjectAttributeValue> {
    let x0 = spec_tag(s, i, kw("EV_"));
    if !(x0 is Done) {
        halt(x0)
    } else {
        let x1 = spec_ss(s, x0.end());
        if !(x1 is Done) {
            halt(x1)
        } else {
            let name = spec_c_ident(s, x1.end());
            if !(name is Done) {
                halt(name)
            } else {
                let x3 = spec_ss(s, name.end());
                if !(x3 is Done) {
                    halt(x3)
                } else {
                    let v = spec_attribute_value(s, x3.end());
                    if !(v is Done) {
                        halt(v)
                    } else {
                        Parsed::Done(v.end(), SpecObjectAttributeValue::EnvVariableAttributeValue(name.value(), v.value()))
                    }
                }
            }
        }
    }
}

pub fn env_variable_attribute_value_at(s: &[u8], i: usize) -> (r: Result<(usize, AttributeValuedForObjectType), ParseError>)
    requires
        i <= s@.len(),
        !(spec_env_variable_attribute_value(s@, i as int) is Abort),
    ensures
        agrees(r, spec_env_variable_attribute_value(s@, i as int)),
        ends_within(r, i as int, s@.len() as int),
{
    let p0 = tag_at(s, i, "EV_")?;
    let p1 = ss_at(s, p0)?;
    let (p2, name) = c_ident_at(s, p1)?;
    let p3 = ss_at(s, p2)?;
    let (p4, v) = attribute_value_at(s, p3)?;
    Ok((p4, AttributeValuedForObjectType::EnvVariableAttributeValue(name, v)))
}

pub fn env_variable_attribute_value(input: &[u8]) -> (r: Result<(&[u8], AttributeValuedForObjectType), ParseError>)
    requires
        !(spec_env_variable_attribute_value(input@, 0) is Abort),
    ensures
        answers(input@, r, spec_env_variable_attribute_value(input@, 0)),
{
    let (j, v) = env_variable_attribute_value_at(input, 0)?;
    Ok((slice_subrange(input, j, input.len()), v))
}

/// A value that belongs to no object.
pub open spec fn spec_raw_attribute_value(s: Seq<u8>, i: int) -> Parsed<SpecObjectAttributeValue> {
    let v = spec_attribute_value(s, i);
    if !(v is Done) {
        halt(v)
    } else {
        Parsed::Done(v.end(), SpecObjectAttributeValue::RawAttributeValue(v.value()))
    }
}

pub fn raw_attribute_value_at(s: &[u8], i: usize) -> (r: Result<(usize, AttributeValuedForObjectType), ParseError>)
    requires
        i <= s@.len(),
        !(spec_raw_attribute_value(s@, i as int) is Abort),
    ensures
        agrees(r, spec_raw_attribute_value(s@, i as int)),
        ends_within(r, i as int, s@.len() as int),
{
    let (p0, v) = attribute_value_at(s, i)?;
    Ok((p0, AttributeValuedForObjectType::RawAttributeValue(v)))
}

pub fn raw_attribute_value(input: &[u8]) -> (r: Result<(&[u8], AttributeValuedForObjectType), ParseError>)
    requires
        !(spec_raw_attribute_value(input@, 0) is Abort),
    ensures
        answers(input@, r, spec_raw_attribute_value(input@, 0)),
{
    let (j, v) = raw_attribute_value_at(input, 0)?;
    Ok((slice_subrange(input, j, input.len()), v))
}

/// The object an attribute value belongs to, and the value.
pub open spec fn spec_object_attribute_value(s: Seq<u8>, i: int) -> Parsed<SpecObjectAttributeValue> {
    either(spec_network_node_attribute_value(s, i), either(spec_message_definition_attribute_value(s, i), either(spec_signal_attribute_value(s, i), either(spec_env_variable_attribute_value(s, i), spec_raw_attribute_value(s, i)))))
}

pub fn object_attribute_value_at(s: &[u8], i: usize) -> (r: Result<(usize, AttributeValuedForObjectType), ParseError>)
    requires
        i <= s@.len(),
        !(spec_object_attribute_value(s@, i as int) is Abort),
    ensures
        agrees(r, spec_object_attribute_value(s@, i as int)),
        ends_within(r, i as int, s@.len() as int),
{
    match network_node_attribute_value_at(s, i) {
        Err(ParseError::Error) => {}
        other => {
            return other;
        },
    }
    match message_definition_attribute_value_at(s, i) {
        Err(ParseError::Error) => {}
        other => {
            return other;
        },
    }
    match signal_attribute_value_at(s, i) {
        Err(ParseError::Error) => {}
        other => {
            return other;
        },
    }
    match env_variable_attribute_value_at(s, i) {
        Err(ParseError::Error) => {}
        other => {
            return other;
        },
    }
    raw_attribute_value_at(s, i)
}

/// `BA_`: the value of an attribute.
pub open spec fn spec_attribute_value_for_object(s: Seq<u8>, i: int) -> Parsed<SpecDbcElement> {
    let x0 = spec_tag(s, i, kw("BA_"));
    if !(x0 is Done) {
        halt(x0)
    } else {
        let x1 = spec_ss(s, x0.end());
        if !(x1 is Done) {
            halt(x1)
        } else {
            let name = spec_quoted(s, x1.end());
            if !(name is Done) {
                halt(name)
            } else {
                let x3 = spec_ss(s, name.end());
                if !(x3 is Done) {
                    halt(x3)
                } else {
                    let v = spec_object_attribute_value(s, x3.end());
                    if !(v is Done) {
                        halt(v)
                    } else {
                        let x5 = spec_char(s, v.end(), ';' as u8);
                        if !(x5 is Done) {
                            halt(x5)
                        } else {
                            Parsed::Done(x5.end(), SpecDbcElement::AttributeValueForObject(name.value(), v.value()))
                        }
                    }
                }
            }
        }
    }
}

pub fn attribute_value_for_object_at(s: &[u8], i: usize) -> (r: Result<(usize, DbcElement), ParseError>)
    requires
        i <= s@.len(),
        !(spec_attribute_value_for_object(s@, i as int) is Abort),
    ensures
        agrees(r, spec_attribute_value_for_object(s@, i as int)),
        ends_within(r, i as int, s@.len() as int),
{
    let p0 = tag_at(s, i, "BA_")?;
    let p1 = ss_at(s, p0)?;
    let (p2, name) = quoted_at(s, p1)?;
    let p3 = ss_at(s, p2)?;
    let (p4, v) = object_attribute_value_at(s, p3)?;
    let p5 = char_at(s, p4, ';' as u8)?;
    Ok((p5, DbcElement::AttributeValueForObject(name, v)))
}

pub fn attribute_value_for_object(input: &[u8]) -> (r: Result<(&[u8], DbcElement), ParseError>)
    requires
        !(spec_attribute_value_for_object(input@, 0) is Abort),
    ensures
        answers(input@, r, spec_attribute_value_for_object(input@, 0)),
{
    let (j, v) = attribute_value_for_object_at(input, 0)?;
    Ok((slice_subrange(input, j, input.len()), v))
}

/// `BA_DEF_DEF_`: the default value of an attribute.
pub open spec fn spec_attribute_default(s: Seq<u8>, i: int) -> Parsed<SpecDbcElement> {
    let x0 = spec_tag(s, i, kw("BA_DEF_DEF_"));
    if !(x0 is Done) {
        halt(x0)
    } else {
        let x1 = spec_ss(s, x0.end());
        if !(x1 is Done) {
            halt(x1)
        } else {
            let name = spec_quoted(s, x1.end());
            if !(name is Done) {
                halt(name)
            } else {
                let x3 = spec_ss(s, name.end());
                if !(x3 is Done) {
                    halt(x3)
                } else {
                    let v = spec_attribute_value(s, x3.end());
                    if !(v is Done) {
                        halt(v)
                    } else {
                        let x5 = spec_char(s, v.end(), ';' as u8);
                        if !(x5 is Done) {
                            halt(x5)
                        } else {
                            Parsed::Done(x5.end(), SpecDbcElement::AttributeDefault(name.value(), v.value()))
                        }
                    }
                }
            }
        }
    }
}

pub fn attribute_default_at(s: &[u8], i: usize) -> (r: Result<(usize, DbcElement), ParseError>)
    requires
        i <= s@.len(),
        !(spec_attribute_default(s@, i as int) is Abort),
    ensures
        agrees(r, spec_attribute_default(s@, i as int)),
        ends_within(r, i as int, s@.len() as int),
{
    let p0 = tag_at(s, i, "BA_DEF_DEF_")?;
    let p1 = ss_at(s, p0)?;
    let (p2, name) = quoted_at(s, p1)?;
    let p3 = ss_at(s, p2)?;
    let (p4, v) = attribute_value_at(s, p3)?;
    let p5 = char_at(s, p4, ';' as u8)?;
    Ok((p5, DbcElement::AttributeDefault(name, v)))
}

pub fn attribute_default(input: &[u8]) -> (r: Result<(&[u8], DbcElement), ParseError>)
    requires
        !(spec_attribute_default(input@, 0) is Abort),
    ensures
        answers(input@, r, spec_attribute_default(input@, 0)),
{
    let (j, v) = attribute_default_at(input, 0)?;
    Ok((slice_subrange(input, j, input.len()), v))
}

/// `BU_` and the text of a node attribute definition, up to `;`.
pub open spec fn spec_bu_def(s: Seq<u8>, i: int) -> Parsed<SpecDbcElement> {
    let x0 = spec_tag(s, i, kw("BU_"));
    if !(x0 is Done) {
        halt(x0)
    } else {
        let x1 = spec_ss(s, x0.end());
        if !(x1 is Done) {
            halt(x1)
        } else {
            let x = spec_text_till(s, x1.end(), ByteClass::NotSemicolon);
            if !(x is Done) {
                halt(x)
            } else {
                Parsed::Done(x.end(), SpecDbcElement::BUDef(x.value()))
            }
        }
    }
}

pub fn bu_def_at(s: &[u8], i: usize) -> (r: Result<(usize, DbcElement), ParseError>)
    requires
        i <= s@.len(),
        !(spec_bu_def(s@, i as int) is Abort),
    ensures
        agrees(r, spec_bu_def(s@, i as int)),
        ends_within(r, i as int, s@.len() as int),
{
    let p0 = tag_at(s, i, "BU_")?;
    let p1 = ss_at(s, p0)?;
    let (p2, x) = text_till_at(s, p1, ByteClass::NotSemicolon)?;
    Ok((p2, DbcElement::BUDef(x)))
}

pub fn bu_def(input: &[u8]) -> (r: Result<(&[u8], DbcElement), ParseError>)
    requires
        !(spec_bu_def(input@, 0) is Abort),
    ensures
        answers(input@, r, spec_bu_def(input@, 0)),
{
    let (j, v) = bu_def_at(input, 0)?;
    Ok((slice_subrange(input, j, input.len()), v))
}

/// `BO_` and the text of a message attribute definition, up to `;`.
pub open spec fn spec_bo_def(s: Seq<u8>, i: int) -> Parsed<SpecDbcElement> {
    let x0 = spec_tag(s, i, kw("BO_"));
    if !(x0 is Done) {
        halt(x0)
    } else {
        let x1 = spec_ss(s, x0.end());
        if !(x1 is Done) {
            halt(x1)
        } else {
            let x = spec_text_till(s, x1.end(), ByteClass::NotSemicolon);
            if !(x is Done) {
                halt(x)
            } else {
                Parsed::Done(x.end(), SpecDbcElement::BODef(x.value()))
            }
        }
    }
}

pub fn bo_def_at(s: &[u8], i: usize) -> (r: Result<(usize, DbcElement), ParseError>)
    requires
        i <= s@.len(),
        !(spec_bo_def(s@, i as int) is Abort),
    ensures
        agrees(r, spec_bo_def(s@, i as int)),
        ends_within(r, i as int, s@.len() as int),
{
    let p0 = tag_at(s, i, "BO_")?;
    let p1 = ss_at(s, p0)?;
    let (p2, x) = text_till_at(s, p1, ByteClass::NotSemicolon)?;
    Ok((p2, DbcElement::BODef(x)))
}

pub fn bo_def(input: &[u8]) -> (r: Result<(&[u8], DbcElement), ParseError>)
    requires
        !(spec_bo_def(input@, 0) is Abort),
    ensures
        answers(input@, r, spec_bo_def(input@, 0)),
{
    let (j, v) = bo_def_at(input, 0)?;
    Ok((slice_subrange(input, j, input.len()), v))
}

/// A node or message attribute definition.
pub open spec fn spec_attr_def_body(s: Seq<u8>, i: int) -> Parsed<SpecDbcElement> {
    either(spec_bu_def(s, i), spec_bo_def(s, i))
}

pub fn attr_def_body_at(s: &[u8], i: usize) -> (r: Result<(usize, DbcElement), ParseError>)
    requires
        i <= s@.len(),
        !(spec_attr_def_body(s@, i as int) is Abort),
    ensures
        agrees(r, spec_attr_def_body(s@, i as int)),
        ends_within(r, i as int, s@.len() as int),
{
    match bu_def_at(s, i) {
        Err(ParseError::Error) => {}
        other => {
            return other;
        },
    }
    bo_def_at(s, i)
}

/// `BA_DEF_`: the definition of an attribute of nodes or of messages.
pub open spec fn spec_custom_attr_def(s: Seq<u8>, i: int) -> Parsed<SpecDbcElement> {
    let x0 = spec_tag(s, i, kw("BA_DEF_"));
    if !(x0 is Done) {
        halt(x0)
    } else {
        let x1 = spec_ss(s, x0.end());
        if !(x1 is Done) {
            halt(x1)
        } else {
            let d = spec_attr_def_body(s, x1.end());
            if !(d is Done) {
                halt(d)
            } else {
                Parsed::Done(d.end(), d.value())
            }
        }
    }
}

pub fn custom_attr_def_at(s: &[u8], i: usize) -> (r: Result<(usize, DbcElement), ParseError>)
    requires
        i <= s@.len(),
        !(spec_custom_attr_def(s@, i as int) is Abort),
    ensures
        agrees(r, spec_custom_attr_def(s@, i as int)),
        ends_within(r, i as int, s@.len() as int),
{
    let p0 = tag_at(s, i, "BA_DEF_")?;
    let p1 = ss_at(s, p0)?;
    let (p2, d) = attr_def_body_at(s, p1)?;
    Ok((p2, d))
}

pub fn custom_attr_def(input: &[u8]) -> (r: Result<(&[u8], DbcElement), ParseError>)
    requires
        !(spec_custom_attr_def(input@, 0) is Abort),
    ensures
        answers(input@, r, spec_custom_attr_def(input@, 0)),
{
    let (j, v) = custom_attr_def_at(input, 0)?;
    Ok((slice_subrange(input, j, input.len()), v))
}

} // verus!
