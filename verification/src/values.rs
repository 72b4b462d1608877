//! Descriptions of the values of signals and environment variables (`VAL_`).
use vstd::prelude::*;
use vstd::slice::slice_subrange;
use crate::outcome::{ParseError, Parsed, halt, either, agrees, agrees_at, ends_within, at_within, answers};
use crate::lexical::{
    spec_char, spec_ss, spec_tag, kw, spec_quoted, spec_c_ident, spec_double, char_at, ss_at,
    tag_at, quoted_at, c_ident_at, double_at,
};
use crate::signal::{spec_message_id, message_id_at};
use crate::types::{DbcElement, SpecDbcElement, ValueDescription, SpecValueDescription};

verus! {

/// A number and the quoted text that describes it.
pub open spec fn spec_value_description(s: Seq<u8>, i: int) -> Parsed<SpecValueDescription> {
    let a = spec_double(s, i);
    if !(a is Done) {
        halt(a)
    } else {
        let x1 = spec_ss(s, a.end());
        if !(x1 is Done) {
            halt(x1)
        } else {
            let b = spec_quoted(s, x1.end());
            if !(b is Done) {
                halt(b)
            } else {
                Parsed::Done(b.end(), SpecValueDescription { a: a.value(), b: b.value() })
            }
        }
    }
}

pub fn value_description_at(s: &[u8], i: usize) -> (r: Result<(usize, ValueDescription), ParseError>)
    requires
        i <= s@.len(),
        !(spec_value_description(s@, i as int) is Abort),
    ensures
        agrees(r, spec_value_description(s@, i as int)),
        ends_within(r, i as int, s@.len() as int),
{
    let (p0, a) = double_at(s, i)?;
    let p1 = ss_at(s, p0)?;
    let (p2, b) = quoted_at(s, p1)?;
    Ok((p2, ValueDescription { a, b }))
}

pub fn value_description(input: &[u8]) -> (r: Result<(&[u8], ValueDescription), ParseError>)
    requires
        !(spec_value_description(input@, 0) is Abort),
    ensures
        answers(input@, r, spec_value_description(input@, 0)),
{
    let (j, v) = value_description_at(input, 0)?;
    Ok((slice_subrange(input, j, input.len()), v))
}

/// A space and a value description.
pub open spec fn spec_description_item(s: Seq<u8>, i: int) -> Parsed<SpecValueDescription> {
    let x0 = spec_ss(s, i);
    if !(x0 is Done) {
        halt(x0)
    } else {
        let d = spec_value_description(s, x0.end());
        if !(d is Done) {
            halt(d)
        } else {
            Parsed::Done(d.end(), d.value())
        }
    }
}

pub fn description_item_at(s: &[u8], i: usize) -> (r: Result<(usize, ValueDescription), ParseError>)
    requires
        i <= s@.len(),
        !(spec_description_item(s@, i as int) is Abort),
    ensures
        agrees(r, spec_description_item(s@, i as int)),
        ends_within(r, i as int, s@.len() as int),
{
    let p0 = ss_at(s, i)?;
    let (p1, d) = value_description_at(s, p0)?;
    Ok((p1, d))
}

/// `VAL_`, a message id, a signal name and descriptions up to ` ;`.
pub open spec fn spec_value_description_for_signal(s: Seq<u8>, i: int) -> Parsed<SpecDbcElement> {
    let x0 = spec_tag(s, i, kw("VAL_"));
    if !(x0 is Done) {
        halt(x0)
    } else {
        let x1 = spec_ss(s, x0.end());
        if !(x1 is Done) {
            halt(x1)
        } else {
            let id = spec_message_id(s, x1.end());
            if !(id is Done) {
                halt(id)
            } else {
                let x3 = spec_ss(s, id.end());
                if !(x3 is Done) {
                    halt(x3)
                } else {
                    let name = spec_c_ident(s, x3.end());
                    if !(name is Done) {
                        halt(name)
                    } else {
                        let d = spec_more_descriptions(s, name.end(), Seq::empty());
                        if !(d is Done) {
                            halt(d)
                        } else {
                            Parsed::Done(d.end(), SpecDbcElement::ValueDescriptionsForSignal(id.value(), name.value(), d.value()))
                        }
                    }
                }
            }
        }
    }
}

pub fn value_description_for_signal_at(s: &[u8], i: usize) -> (r: Result<(usize, DbcElement), ParseError>)
    requires
        i <= s@.len(),
        !(spec_value_description_for_signal(s@, i as int) is Abort),
    ensures
        agrees(r, spec_value_description_for_signal(s@, i as int)),
        ends_within(r, i as int, s@.len() as int),
{
    let p0 = tag_at(s, i, "VAL_")?;
    let p1 = ss_at(s, p0)?;
    let (p2, id) = message_id_at(s, p1)?;
    let p3 = ss_at(s, p2)?;
    let (p4, name) = c_ident_at(s, p3)?;
    let (p5, d) = descriptions_at(s, p4)?;
    Ok((p5, DbcElement::ValueDescriptionsForSignal(id, name, d)))
}

pub fn value_description_for_signal(input: &[u8]) -> (r: Result<(&[u8], DbcElement), ParseError>)
    requires
        !(spec_value_description_for_signal(input@, 0) is Abort),
    ensures
        answers(input@, r, spec_value_description_for_signal(input@, 0)),
{
    let (j, v) = value_description_for_signal_at(input, 0)?;
    Ok((slice_subrange(input, j, input.len()), v))
}

/// `VAL_`, an environment variable name and descriptions up to ` ;`.
pub open spec fn spec_value_description_for_env_var(s: Seq<u8>, i: int) -> Parsed<SpecDbcElement> {
    let x0 = spec_tag(s, i, kw("VAL_"));
    if !(x0 is Done) {
        halt(x0)
    } else {
        let x1 = spec_ss(s, x0.end());
        if !(x1 is Done) {
            halt(x1)
        } else {
            let name = spec_c_ident(s, x1.end());
            if !(name is Done) {
                halt(name)
            } else {
                let d = spec_more_descriptions(s, name.end(), Seq::empty());
                if !(d is Done) {
                    halt(d)
                } else {
                    Parsed::Done(d.end(), SpecDbcElement::ValueDescriptionsForEnvVar(name.value(), d.value()))
                }
            }
        }
    }
}

pub fn value_description_for_env_var_at(s: &[u8], i: usize) -> (r: Result<(usize, DbcElement), ParseError>)
    requires
        i <= s@.len(),
        !(spec_value_description_for_env_var(s@, i as int) is Abort),
    ensures
        agrees(r, spec_value_description_for_env_var(s@, i as int)),
        ends_within(r, i as int, s@.len() as int),
{
    let p0 = tag_at(s, i, "VAL_")?;
    let p1 = ss_at(s, p0)?;
    let (p2, name) = c_ident_at(s, p1)?;
    let (p3, d) = descriptions_at(s, p2)?;
    Ok((p3, DbcElement::ValueDescriptionsForEnvVar(name, d)))
}

pub fn value_description_for_env_var(input: &[u8]) -> (r: Result<(&[u8], DbcElement), ParseError>)
    requires
        !(spec_value_description_for_env_var(input@, 0) is Abort),
    ensures
        answers(input@, r, spec_value_description_for_env_var(input@, 0)),
{
    let (j, v) = value_description_for_env_var_at(input, 0)?;
    Ok((slice_subrange(input, j, input.len()), v))
}

/// Value descriptions of a signal, or else of an environment variable.
pub open spec fn spec_value_descriptions(s: Seq<u8>, i: int) -> Parsed<SpecDbcElement> {
    either(spec_value_description_for_signal(s, i), spec_value_description_for_env_var(s, i))
}

pub fn value_descriptions_at(s: &[u8], i: usize) -> (r: Result<(usize, DbcElement), ParseError>)
    requires
        i <= s@.len(),
        !(spec_value_descriptions(s@, i as int) is Abort),
    ensures
        agrees(r, spec_value_descriptions(s@, i as int)),
        ends_within(r, i as int, s@.len() as int),
{
    match value_description_for_signal_at(s, i) {
        Err(ParseError::Error) => {}
        other => {
            return other;
        },
    }
    value_description_for_env_var_at(s, i)
}

pub fn value_descriptions(input: &[u8]) -> (r: Result<(&[u8], DbcElement), ParseError>)
    requires
        !(spec_value_descriptions(input@, 0) is Abort),
    ensures
        answers(input@, r, spec_value_descriptions(input@, 0)),
{
    let (j, v) = value_descriptions_at(input, 0)?;
    Ok((slice_subrange(input, j, input.len()), v))
}

/// ` ;`, which ends a list of value descriptions.
pub open spec fn spec_description_end(s: Seq<u8>, p: int) -> Parsed<()> {
    let a = spec_ss(s, p);
    if !(a is Done) {
        a
    } else {
        spec_char(s, a.end(), ';' as u8)
    }
}

fn description_end_at(s: &[u8], p: usize) -> (r: Result<usize, ParseError>)
    requires
        p <= s@.len(),
    ensures
        agrees_at(r, spec_description_end(s@, p as int)),
        at_within(r, p as int, s@.len() as int),
{
    let a = ss_at(s, p)?;
    char_at(s, a, ';' as u8)
}

/// Value descriptions after those in `acc`, from `p`, up to the closing ` ;` (`many_till!`):
/// where the closing ` ;` does not follow, a description must, and must move forward.
/// (No description ends past the input; that bound only lets the definition terminate.)
pub open spec fn spec_more_descriptions(s: Seq<u8>, p: int, acc: Seq<SpecValueDescription>) -> Parsed<
    Seq<SpecValueDescription>,
>
    decreases s.len() - p,
{
    let t = spec_description_end(s, p);
    if t is Done {
        Parsed::Done(t.end(), acc)
    } else {
        let e = spec_description_item(s, p);
        if !(e is Done) {
            halt(e)
        } else if e.end() <= p || e.end() > s.len() {
            Parsed::Fail(ParseError::Error)
        } else {
            spec_more_descriptions(s, e.end(), acc.push(e.value()))
        }
    }
}

fn descriptions_at(s: &[u8], i: usize) -> (r: Result<(usize, Vec<ValueDescription>), ParseError>)
    requires
        i <= s@.len(),
        !(spec_more_descriptions(s@, i as int, Seq::empty()) is Abort),
    ensures
        agrees(r, spec_more_descriptions(s@, i as int, Seq::empty())),
        ends_within(r, i as int, s@.len() as int),
{
    let mut acc: Vec<ValueDescription> = Vec::new();
    assert(acc.deep_view() =~= Seq::<SpecValueDescription>::empty());
    let mut p = i;
    loop
        invariant
            i <= p <= s@.len(),
            !(spec_more_descriptions(s@, i as int, Seq::empty()) is Abort),
            spec_more_descriptions(s@, i as int, Seq::empty()) == spec_more_descriptions(
                s@,
                p as int,
                acc.deep_view(),
            ),
        decreases s@.len() - p,
    {
        match description_end_at(s, p) {
            Ok(q) => {
                return Ok((q, acc));
            },
            Err(_) => {
                let (k, d) = description_item_at(s, p)?;
                if k <= p {
                    return Err(ParseError::Error);
                }
                let ghost before = acc.deep_view();
                acc.push(d);
                assert(acc.deep_view() =~= before.push(d.deep_view()));
                p = k;
            },
        }
    }
}


} // verus!
