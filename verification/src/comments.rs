//! Comments on signals and messages (`CM_`).
use vstd::prelude::*;
use vstd::slice::slice_subrange;
use crate::outcome::{ParseError, Parsed, halt, either, agrees, ends_within, answers};
use crate::lexical::{
    ByteClass, spec_char, spec_ss, spec_tag, kw, spec_quoted, spec_c_ident, spec_text_till,
    char_at, ss_at, tag_at, quoted_at, c_ident_at, text_till_at,
};
use crate::signal::{spec_message_id, message_id_at, spec_signal_comment_id, signal_comment_id_at};
use crate::types::{DbcElement, SpecDbcElement};

verus! {

/// `SG_`, a message id, a signal name and the quoted comment.
pub open spec fn spec_signal_comment(s: Seq<u8>, i: int) -> Parsed<SpecDbcElement> {
    let x0 = spec_tag(s, i, kw("SG_"));
    if !(x0 is Done) {
        halt(x0)
    } else {
        let x1 = spec_ss(s, x0.end());
        if !(x1 is Done) {
            halt(x1)
        } else {
            let id = spec_signal_comment_id(s, x1.end());
            if !(id is Done) {
                halt(id)
            } else {
                let x3 = spec_ss(s, id.end());
                if !(x3 is Done) {
                    halt(x3)
                } else {
                    let name = spec_c_ident(s, x3.end());
                    if !(name is Done) {
                        halt(name)
                    } else {
                        let x5 = spec_ss(s, name.end());
                        if !(x5 is Done) {
                            halt(x5)
                        } else {
                            let c = spec_quoted(s, x5.end());
                            if !(c is Done) {
                                halt(c)
                            } else {
                                Parsed::Done(c.end(), SpecDbcElement::SignalComment(id.value(), name.value(), c.value(), false))
                            }
                        }
                    }
                }
            }
        }
    }
}

pub fn signal_comment_at(s: &[u8], i: usize) -> (r: Result<(usize, DbcElement), ParseError>)
    requires
        i <= s@.len(),
        !(spec_signal_comment(s@, i as int) is Abort),
    ensures
        agrees(r, spec_signal_comment(s@, i as int)),
        ends_within(r, i as int, s@.len() as int),
{
    let p0 = tag_at(s, i, "SG_")?;
    let p1 = ss_at(s, p0)?;
    let (p2, id) = signal_comment_id_at(s, p1)?;
    let p3 = ss_at(s, p2)?;
    let (p4, name) = c_ident_at(s, p3)?;
    let p5 = ss_at(s, p4)?;
    let (p6, c) = quoted_at(s, p5)?;
    Ok((p6, DbcElement::SignalComment(id, name, c, false)))
}

pub fn signal_comment(input: &[u8]) -> (r: Result<(&[u8], DbcElement), ParseError>)
    requires
        !(spec_signal_comment(input@, 0) is Abort),
    ensures
        answers(input@, r, spec_signal_comment(input@, 0)),
{
    let (j, v) = signal_comment_at(input, 0)?;
    Ok((slice_subrange(input, j, input.len()), v))
}

/// `BO_`, a message id, a name up to a space and the quoted comment.
pub open spec fn spec_message_definition_comment(s: Seq<u8>, i: int) -> Parsed<SpecDbcElement> {
    let x0 = spec_tag(s, i, kw("BO_"));
    if !(x0 is Done) {
        halt(x0)
    } else {
        let x1 = spec_ss(s, x0.end());
        if !(x1 is Done) {
            halt(x1)
        } else {
            let id = spec_message_id(s, x1.end());
            if !(id is Done) {
                halt(id)
            } else {
                let x3 = spec_ss(s, id.end());
                if !(x3 is Done) {
                    halt(x3)
                } else {
                    let name = spec_text_till(s, x3.end(), ByteClass::NotSpace);
                    if !(name is Done) {
                        halt(name)
                    } else {
                        let x5 = spec_ss(s, name.end());
                        if !(x5 is Done) {
                            halt(x5)
                        } else {
                            let c = spec_quoted(s, x5.end());
                            if !(c is Done) {
                                halt(c)
                            } else {
                                Parsed::Done(c.end(), SpecDbcElement::MessageDefinitionComment(id.value(), name.value(), c.value(), false))
                            }
                        }
                    }
                }
            }
        }
    }
}

pub fn message_definition_comment_at(s: &[u8], i: usize) -> (r: Result<(usize, DbcElement), ParseError>)
    requires
        i <= s@.len(),
        !(spec_message_definition_comment(s@, i as int) is Abort),
    ensures
        agrees(r, spec_message_definition_comment(s@, i as int)),
        ends_within(r, i as int, s@.len() as int),
{
    let p0 = tag_at(s, i, "BO_")?;
    let p1 = ss_at(s, p0)?;
    let (p2, id) = message_id_at(s, p1)?;
    let p3 = ss_at(s, p2)?;
    let (p4, name) = text_till_at(s, p3, ByteClass::NotSpace)?;
    let p5 = ss_at(s, p4)?;
    let (p6, c) = quoted_at(s, p5)?;
    Ok((p6, DbcElement::MessageDefinitionComment(id, name, c, false)))
}

pub fn message_definition_comment(input: &[u8]) -> (r: Result<(&[u8], DbcElement), ParseError>)
    requires
        !(spec_message_definition_comment(input@, 0) is Abort),
    ensures
        answers(input@, r, spec_message_definition_comment(input@, 0)),
{
    let (j, v) = message_definition_comment_at(input, 0)?;
    Ok((slice_subrange(input, j, input.len()), v))
}

/// A signal comment or a message comment.
pub open spec fn spec_comment_body(s: Seq<u8>, i: int) -> Parsed<SpecDbcElement> {
    either(spec_signal_comment(s, i), spec_message_definition_comment(s, i))
}

pub fn comment_body_at(s: &[u8], i: usize) -> (r: Result<(usize, DbcElement), ParseError>)
    requires
        i <= s@.len(),
        !(spec_comment_body(s@, i as int) is Abort),
    ensures
        agrees(r, spec_comment_body(s@, i as int)),
        ends_within(r, i as int, s@.len() as int),
{
    match signal_comment_at(s, i) {
        Err(ParseError::Error) => {}
        other => {
            return other;
        },
    }
    message_definition_comment_at(s, i)
}

/// `CM_`: a comment on a signal or on a message, closed by `;`.
pub open spec fn spec_comment(s: Seq<u8>, i: int) -> Parsed<SpecDbcElement> {
    let x0 = spec_tag(s, i, kw("CM_"));
    if !(x0 is Done) {
        halt(x0)
    } else {
        let x1 = spec_ss(s, x0.end());
        if !(x1 is Done) {
            halt(x1)
        } else {
            let c = spec_comment_body(s, x1.end());
            if !(c is Done) {
                halt(c)
            } else {
                let x3 = spec_char(s, c.end(), ';' as u8);
                if !(x3 is Done) {
                    halt(x3)
                } else {
                    Parsed::Done(x3.end(), c.value())
                }
            }
        }
    }
}

pub fn comment_at(s: &[u8], i: usize) -> (r: Result<(usize, DbcElement), ParseError>)
    requires
        i <= s@.len(),
        !(spec_comment(s@, i as int) is Abort),
    ensures
        agrees(r, spec_comment(s@, i as int)),
        ends_within(r, i as int, s@.len() as int),
{
    let p0 = tag_at(s, i, "CM_")?;
    let p1 = ss_at(s, p0)?;
    let (p2, c) = comment_body_at(s, p1)?;
    let p3 = char_at(s, p2, ';' as u8)?;
    Ok((p3, c))
}

pub fn comment(input: &[u8]) -> (r: Result<(&[u8], DbcElement), ParseError>)
    requires
        !(spec_comment(input@, 0) is Abort),
    ensures
        answers(input@, r, spec_comment(input@, 0)),
{
    let (j, v) = comment_at(input, 0)?;
    Ok((slice_subrange(input, j, input.len()), v))
}

} // verus!
