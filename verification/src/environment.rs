//! Environment variables (`EV_`) and their data sizes (`ENVVAR_DATA_`).
use vstd::prelude::*;
use vstd::slice::slice_subrange;
use crate::outcome::{ParseError, Parsed, halt, with_value, either, agrees, ends_within, answers};
use crate::lexical::{
    spec_char, spec_ss, spec_tag, kw, spec_quoted, spec_c_ident, spec_double, spec_i64_digit,
    spec_u64_s, char_at, ss_at, tag_at, quoted_at, c_ident_at, double_at, i64_digit_at, u64_s_at,
};
use crate::types::{DbcElement, SpecDbcElement, EnvType, AccessType, AccessNode, SpecAccessNode, FloatLiteral};

verus! {

/// `0`: a floating-point variable.
pub open spec fn spec_env_float(s: Seq<u8>, i: int) -> Parsed<EnvType> {
    with_value(spec_char(s, i, '0' as u8), EnvType::EnvTypeFloat)
}

fn env_float_at(s: &[u8], i: usize) -> (r: Result<(usize, EnvType), ParseError>)
    requires
        i <= s@.len(),
    ensures
        agrees(r, spec_env_float(s@, i as int)),
        ends_within(r, i as int, s@.len() as int),
{
    let j = char_at(s, i, '0' as u8)?;
    Ok((j, EnvType::EnvTypeFloat))
}

/// `1`: an integer variable.
pub open spec fn spec_env_int(s: Seq<u8>, i: int) -> Parsed<EnvType> {
    with_value(spec_char(s, i, '1' as u8), EnvType::EnvTypeu64)
}

fn env_int_at(s: &[u8], i: usize) -> (r: Result<(usize, EnvType), ParseError>)
    requires
        i <= s@.len(),
    ensures
        agrees(r, spec_env_int(s@, i as int)),
        ends_within(r, i as int, s@.len() as int),
{
    let j = char_at(s, i, '1' as u8)?;
    Ok((j, EnvType::EnvTypeu64))
}

/// `2`: a data variable.
pub open spec fn spec_env_data(s: Seq<u8>, i: int) -> Parsed<EnvType> {
    with_value(spec_char(s, i, '2' as u8), EnvType::EnvTypeData)
}

fn env_data_at(s: &[u8], i: usize) -> (r: Result<(usize, EnvType), ParseError>)
    requires
        i <= s@.len(),
    ensures
        agrees(r, spec_env_data(s@, i as int)),
        ends_within(r, i as int, s@.len() as int),
{
    let j = char_at(s, i, '2' as u8)?;
    Ok((j, EnvType::EnvTypeData))
}

/// The type of an environment variable.
pub open spec fn spec_env_var_type(s: Seq<u8>, i: int) -> Parsed<EnvType> {
    either(spec_env_float(s, i), either(spec_env_int(s, i), spec_env_data(s, i)))
}

pub fn env_var_type_at(s: &[u8], i: usize) -> (r: Result<(usize, EnvType), ParseError>)
    requires
        i <= s@.len(),
    ensures
        agrees(r, spec_env_var_type(s@, i as int)),
        ends_within(r, i as int, s@.len() as int),
{
    match env_float_at(s, i) {
        Err(ParseError::Error) => {}
        other => {
            return other;
        },
    }
    match env_int_at(s, i) {
        Err(ParseError::Error) => {}
        other => {
            return other;
        },
    }
    env_data_at(s, i)
}

pub fn env_var_type(input: &[u8]) -> (r: Result<(&[u8], EnvType), ParseError>)
    ensures
        answers(input@, r, spec_env_var_type(input@, 0)),
{
    let (j, v) = env_var_type_at(input, 0)?;
    Ok((slice_subrange(input, j, input.len()), v))
}

/// `0` after `DUMMY_NODE_VECTOR`.
pub open spec fn spec_dummy_node_vector_0(s: Seq<u8>, i: int) -> Parsed<AccessType> {
    with_value(spec_char(s, i, '0' as u8), AccessType::DUMMY_NODE_VECTOR0)
}

fn dummy_node_vector_0_at(s: &[u8], i: usize) -> (r: Result<(usize, AccessType), ParseError>)
    requires
        i <= s@.len(),
    ensures
        agrees(r, spec_dummy_node_vector_0(s@, i as int)),
        ends_within(r, i as int, s@.len() as int),
{
    let j = char_at(s, i, '0' as u8)?;
    Ok((j, AccessType::DUMMY_NODE_VECTOR0))
}

/// `1` after `DUMMY_NODE_VECTOR`.
pub open spec fn spec_dummy_node_vector_1(s: Seq<u8>, i: int) -> Parsed<AccessType> {
    with_value(spec_char(s, i, '1' as u8), AccessType::DUMMY_NODE_VECTOR1)
}

fn dummy_node_vector_1_at(s: &[u8], i: usize) -> (r: Result<(usize, AccessType), ParseError>)
    requires
        i <= s@.len(),
    ensures
        agrees(r, spec_dummy_node_vector_1(s@, i as int)),
        ends_within(r, i as int, s@.len() as int),
{
    let j = char_at(s, i, '1' as u8)?;
    Ok((j, AccessType::DUMMY_NODE_VECTOR1))
}

/// `2` after `DUMMY_NODE_VECTOR`.
pub open spec fn spec_dummy_node_vector_2(s: Seq<u8>, i: int) -> Parsed<AccessType> {
    with_value(spec_char(s, i, '2' as u8), AccessType::DUMMY_NODE_VECTOR2)
}

fn dummy_node_vector_2_at(s: &[u8], i: usize) -> (r: Result<(usize, AccessType), ParseError>)
    requires
        i <= s@.len(),
    ensures
        agrees(r, spec_dummy_node_vector_2(s@, i as int)),
        ends_within(r, i as int, s@.len() as int),
{
    let j = char_at(s, i, '2' as u8)?;
    Ok((j, AccessType::DUMMY_NODE_VECTOR2))
}

/// `3` after `DUMMY_NODE_VECTOR`.
pub open spec fn spec_dummy_node_vector_3(s: Seq<u8>, i: int) -> Parsed<AccessType> {
    with_value(spec_char(s, i, '3' as u8), AccessType::DUMMY_NODE_VECTOR3)
}

fn dummy_node_vector_3_at(s: &[u8], i: usize) -> (r: Result<(usize, AccessType), ParseError>)
    requires
        i <= s@.len(),
    ensures
        agrees(r, spec_dummy_node_vector_3(s@, i as int)),
        ends_within(r, i as int, s@.len() as int),
{
    let j = char_at(s, i, '3' as u8)?;
    Ok((j, AccessType::DUMMY_NODE_VECTOR3))
}

/// The digit of an access type.
pub open spec fn spec_access_kind(s: Seq<u8>, i: int) -> Parsed<AccessType> {
    either(spec_dummy_node_vector_0(s, i), either(spec_dummy_node_vector_1(s, i), either(spec_dummy_node_vector_2(s, i), spec_dummy_node_vector_3(s, i))))
}

pub fn access_kind_at(s: &[u8], i: usize) -> (r: Result<(usize, AccessType), ParseError>)
    requires
        i <= s@.len(),
    ensures
        agrees(r, spec_access_kind(s@, i as int)),
        ends_within(r, i as int, s@.len() as int),
{
    match dummy_node_vector_0_at(s, i) {
        Err(ParseError::Error) => {}
        other => {
            return other;
        },
    }
    match dummy_node_vector_1_at(s, i) {
        Err(ParseError::Error) => {}
        other => {
            return other;
        },
    }
    match dummy_node_vector_2_at(s, i) {
        Err(ParseError::Error) => {}
        other => {
            return other;
        },
    }
    dummy_node_vector_3_at(s, i)
}

/// `DUMMY_NODE_VECTOR` and a digit from 0 to 3.
pub open spec fn spec_access_type(s: Seq<u8>, i: int) -> Parsed<AccessType> {
    let x0 = spec_tag(s, i, kw("DUMMY_NODE_VECTOR"));
    if !(x0 is Done) {
        halt(x0)
    } else {
        let a = spec_access_kind(s, x0.end());
        if !(a is Done) {
            halt(a)
        } else {
            Parsed::Done(a.end(), a.value())
        }
    }
}

pub fn access_type_at(s: &[u8], i: usize) -> (r: Result<(usize, AccessType), ParseError>)
    requires
        i <= s@.len(),
    ensures
        agrees(r, spec_access_type(s@, i as int)),
        ends_within(r, i as int, s@.len() as int),
{
    let p0 = tag_at(s, i, "DUMMY_NODE_VECTOR")?;
    let (p1, a) = access_kind_at(s, p0)?;
    Ok((p1, a))
}

pub fn access_type(input: &[u8]) -> (r: Result<(&[u8], AccessType), ParseError>)
    ensures
        answers(input@, r, spec_access_type(input@, 0)),
{
    let (j, v) = access_type_at(input, 0)?;
    Ok((slice_subrange(input, j, input.len()), v))
}

/// `VECTOR_XXX`: no particular node.
pub open spec fn spec_access_node_vector_xxx(s: Seq<u8>, i: int) -> Parsed<SpecAccessNode> {
    with_value(spec_tag(s, i, kw("VECTOR_XXX")), SpecAccessNode::AccessNodeVectorXXX)
}

fn access_node_vector_xxx_at(s: &[u8], i: usize) -> (r: Result<(usize, AccessNode), ParseError>)
    requires
        i <= s@.len(),
    ensures
        agrees(r, spec_access_node_vector_xxx(s@, i as int)),
        ends_within(r, i as int, s@.len() as int),
{
    let j = tag_at(s, i, "VECTOR_XXX")?;
    Ok((j, AccessNode::AccessNodeVectorXXX))
}

/// A node, by name.
pub open spec fn spec_access_node_name(s: Seq<u8>, i: int) -> Parsed<SpecAccessNode> {
    let n = spec_c_ident(s, i);
    if !(n is Done) {
        halt(n)
    } else {
        Parsed::Done(n.end(), SpecAccessNode::AccessNodeName(n.value()))
    }
}

pub fn access_node_name_at(s: &[u8], i: usize) -> (r: Result<(usize, AccessNode), ParseError>)
    requires
        i <= s@.len(),
    ensures
        agrees(r, spec_access_node_name(s@, i as int)),
        ends_within(r, i as int, s@.len() as int),
{
    let (p0, n) = c_ident_at(s, i)?;
    Ok((p0, AccessNode::AccessNodeName(n)))
}

/// A node that may access an environment variable.
pub open spec fn spec_access_node(s: Seq<u8>, i: int) -> Parsed<SpecAccessNode> {
    either(spec_access_node_vector_xxx(s, i), spec_access_node_name(s, i))
}

pub fn access_node_at(s: &[u8], i: usize) -> (r: Result<(usize, AccessNode), ParseError>)
    requires
        i <= s@.len(),
    ensures
        agrees(r, spec_access_node(s@, i as int)),
        ends_within(r, i as int, s@.len() as int),
{
    match access_node_vector_xxx_at(s, i) {
        Err(ParseError::Error) => {}
        other => {
            return other;
        },
    }
    access_node_name_at(s, i)
}

pub fn access_node(input: &[u8]) -> (r: Result<(&[u8], AccessNode), ParseError>)
    ensures
        answers(input@, r, spec_access_node(input@, 0)),
{
    let (j, v) = access_node_at(input, 0)?;
    Ok((slice_subrange(input, j, input.len()), v))
}

/// One or more access nodes, separated by `,`.
pub open spec fn spec_access_node_list(s: Seq<u8>, i: int) -> Parsed<Seq<SpecAccessNode>> {
    let first = spec_access_node(s, i);
    if !(first is Done) {
        halt(first)
    } else if first.end() == i {
        Parsed::Fail(ParseError::Error)
    } else {
        spec_more_access_nodes(s, first.end(), seq![first.value()])
    }
}

/// The rest of the list after the elements `acc`, from position `p`: it ends before a
/// separator or an element that does not match or does not move forward. (No element
/// ends past the input; that bound only lets the definition terminate.)
pub open spec fn spec_more_access_nodes(s: Seq<u8>, p: int, acc: Seq<SpecAccessNode>) -> Parsed<Seq<SpecAccessNode>>
    decreases s.len() - p,
{
    let sep = spec_char(s, p, ',' as u8);
    if sep matches Parsed::Fail(ParseError::Error) {
        Parsed::Done(p, acc)
    } else if !(sep is Done) {
        halt(sep)
    } else {
        let e = spec_access_node(s, sep.end());
        if e matches Parsed::Fail(ParseError::Error) {
            Parsed::Done(p, acc)
        } else if !(e is Done) {
            halt(e)
        } else if sep.end() <= p || e.end() <= sep.end() || e.end() > s.len() {
            Parsed::Done(p, acc)
        } else {
            spec_more_access_nodes(s, e.end(), acc.push(e.value()))
        }
    }
}

pub fn access_node_list_at(s: &[u8], i: usize) -> (r: Result<(usize, Vec<AccessNode>), ParseError>)
    requires
        i <= s@.len(),
    ensures
        agrees(r, spec_access_node_list(s@, i as int)),
        ends_within(r, i as int, s@.len() as int),
{
    let (j, v) = access_node_at(s, i)?;
    if j == i {
        return Err(ParseError::Error);
    }
    let mut acc: Vec<AccessNode> = Vec::new();
    acc.push(v);
    assert(acc.deep_view() =~= seq![spec_access_node(s@, i as int).value()]);
    let mut p = j;
    loop
        invariant
            i <= p <= s@.len(),
            spec_access_node_list(s@, i as int) == spec_more_access_nodes(s@, p as int, acc.deep_view()),
        decreases s@.len() - p,
    {
        match char_at(s, p, ',' as u8) {
            Err(ParseError::Error) => {
                return Ok((p, acc));
            },
            Err(e) => {
                return Err(e);
            },
            Ok(q) => match access_node_at(s, q) {
                Err(ParseError::Error) => {
                    return Ok((p, acc));
                },
                Err(e) => {
                    return Err(e);
                },
                Ok((k, v)) => {
                    if q <= p || k <= q {
                        return Ok((p, acc));
                    }
                    let ghost before = acc.deep_view();
                    acc.push(v);
                    assert(acc.deep_view() =~= before.push(v.deep_view()));
                    p = k;
                },
            },
        }
    }
}

/// `EV_`, the name, `:`, the type and `[min|max]`.
pub open spec fn spec_env_var_head(s: Seq<u8>, i: int) -> Parsed<(Seq<char>, EnvType, i64, i64)> {
    let x0 = spec_tag(s, i, kw("EV_"));
    if !(x0 is Done) {
        halt(x0)
    } else {
        let x1 = spec_ss(s, x0.end());
        if !(x1 is Done) {
            halt(x1)
        } else {
            let name = spec_c_ident(s, x1.end());
            if !(name is Done) {
                halt(name)
            } else {
                let x3 = spec_char(s, name.end(), ':' as u8);
                if !(x3 is Done) {
                    halt(x3)
                } else {
                    let x4 = spec_ss(s, x3.end());
                    if !(x4 is Done) {
                        halt(x4)
                    } else {
                        let ty = spec_env_var_type(s, x4.end());
                        if !(ty is Done) {
                            halt(ty)
                        } else {
                            let x6 = spec_ss(s, ty.end());
                            if !(x6 is Done) {
                                halt(x6)
                            } else {
                                let x7 = spec_char(s, x6.end(), '[' as u8);
                                if !(x7 is Done) {
                                    halt(x7)
                                } else {
                                    let min = spec_i64_digit(s, x7.end());
                                    if !(min is Done) {
                                        halt(min)
                                    } else {
                                        let x9 = spec_char(s, min.end(), '|' as u8);
                                        if !(x9 is Done) {
                                            halt(x9)
                                        } else {
                                            let max = spec_i64_digit(s, x9.end());
                                            if !(max is Done) {
                                                halt(max)
                                            } else {
                                                let x11 = spec_char(s, max.end(), ']' as u8);
                                                if !(x11 is Done) {
                                                    halt(x11)
                                                } else {
                                                    let x12 = spec_ss(s, x11.end());
                                                    if !(x12 is Done) {
                                                        halt(x12)
                                                    } else {
                                                        Parsed::Done(x12.end(), (name.value(), ty.value(), min.value(), max.value()))
                                                    }
                                                }
                                            }
                                        }
                                    }
                                }
                            }
                        }
                    }
                }
            }
        }
    }
}

pub fn env_var_head_at(s: &[u8], i: usize) -> (r: Result<(usize, (String, EnvType, i64, i64)), ParseError>)
    requires
        i <= s@.len(),
    ensures
        agrees(r, spec_env_var_head(s@, i as int)),
        ends_within(r, i as int, s@.len() as int),
{
    let p0 = tag_at(s, i, "EV_")?;
    let p1 = ss_at(s, p0)?;
    let (p2, name) = c_ident_at(s, p1)?;
    let p3 = char_at(s, p2, ':' as u8)?;
    let p4 = ss_at(s, p3)?;
    let (p5, ty) = env_var_type_at(s, p4)?;
    let p6 = ss_at(s, p5)?;
    let p7 = char_at(s, p6, '[' as u8)?;
    let (p8, min) = i64_digit_at(s, p7)?;
    let p9 = char_at(s, p8, '|' as u8)?;
    let (p10, max) = i64_digit_at(s, p9)?;
    let p11 = char_at(s, p10, ']' as u8)?;
    let p12 = ss_at(s, p11)?;
    Ok((p12, (name, ty, min, max)))
}

/// The unit, the initial value, the id and the access type.
pub open spec fn spec_env_var_tail(s: Seq<u8>, i: int) -> Parsed<(Seq<char>, Seq<char>, i64, AccessType)> {
    let unit = spec_quoted(s, i);
    if !(unit is Done) {
        halt(unit)
    } else {
        let x1 = spec_ss(s, unit.end());
        if !(x1 is Done) {
            halt(x1)
        } else {
            let init = spec_double(s, x1.end());
            if !(init is Done) {
                halt(init)
            } else {
                let x3 = spec_ss(s, init.end());
                if !(x3 is Done) {
                    halt(x3)
                } else {
                    let id = spec_i64_digit(s, x3.end());
                    if !(id is Done) {
                        halt(id)
                    } else {
                        let x5 = spec_ss(s, id.end());
                        if !(x5 is Done) {
                            halt(x5)
                        } else {
                            let at = spec_access_type(s, x5.end());
                            if !(at is Done) {
                                halt(at)
                            } else {
                                let x7 = spec_ss(s, at.end());
                                if !(x7 is Done) {
                                    halt(x7)
                                } else {
                                    Parsed::Done(x7.end(), (unit.value(), init.value(), id.value(), at.value()))
                                }
                            }
                        }
                    }
                }
            }
        }
    }
}

pub fn env_var_tail_at(s: &[u8], i: usize) -> (r: Result<(usize, (String, FloatLiteral, i64, AccessType)), ParseError>)
    requires
        i <= s@.len(),
        !(spec_env_var_tail(s@, i as int) is Abort),
    ensures
        agrees(r, spec_env_var_tail(s@, i as int)),
        ends_within(r, i as int, s@.len() as int),
{
    let (p0, unit) = quoted_at(s, i)?;
    let p1 = ss_at(s, p0)?;
    let (p2, init) = double_at(s, p1)?;
    let p3 = ss_at(s, p2)?;
    let (p4, id) = i64_digit_at(s, p3)?;
    let p5 = ss_at(s, p4)?;
    let (p6, at) = access_type_at(s, p5)?;
    let p7 = ss_at(s, p6)?;
    Ok((p7, (unit, init, id, at)))
}

/// `EV_`: an environment variable, closed by `;`.
pub open spec fn spec_environment_variable(s: Seq<u8>, i: int) -> Parsed<SpecDbcElement> {
    let h = spec_env_var_head(s, i);
    if !(h is Done) {
        halt(h)
    } else {
        let t = spec_env_var_tail(s, h.end());
        if !(t is Done) {
            halt(t)
        } else {
            let nodes = spec_access_node_list(s, t.end());
            if !(nodes is Done) {
                halt(nodes)
            } else {
                let x3 = spec_char(s, nodes.end(), ';' as u8);
                if !(x3 is Done) {
                    halt(x3)
                } else {
                    Parsed::Done(x3.end(), SpecDbcElement::EnvVariable(h.value().0, h.value().1, h.value().2, h.value().3, t.value().0, t.value().1, t.value().2, t.value().3, nodes.value()))
                }
            }
        }
    }
}

pub fn environment_variable_at(s: &[u8], i: usize) -> (r: Result<(usize, DbcElement), ParseError>)
    requires
        i <= s@.len(),
        !(spec_environment_variable(s@, i as int) is Abort),
    ensures
        agrees(r, spec_environment_variable(s@, i as int)),
        ends_within(r, i as int, s@.len() as int),
{
    let (p0, h) = env_var_head_at(s, i)?;
    let (p1, t) = env_var_tail_at(s, p0)?;
    let (p2, nodes) = access_node_list_at(s, p1)?;
    let p3 = char_at(s, p2, ';' as u8)?;
    Ok((p3, DbcElement::EnvVariable(h.0, h.1, h.2, h.3, t.0, t.1, t.2, t.3, nodes)))
}

pub fn environment_variable(input: &[u8]) -> (r: Result<(&[u8], DbcElement), ParseError>)
    requires
        !(spec_environment_variable(input@, 0) is Abort),
    ensures
        answers(input@, r, spec_environment_variable(input@, 0)),
{
    let (j, v) = environment_variable_at(input, 0)?;
    Ok((slice_subrange(input, j, input.len()), v))
}

/// `ENVVAR_DATA_`: the data size of an environment variable.
pub open spec fn spec_envvar_data(s: Seq<u8>, i: int) -> Parsed<SpecDbcElement> {
    let x0 = spec_tag(s, i, kw("ENVVAR_DATA_"));
    if !(x0 is Done) {
        halt(x0)
    } else {
        let x1 = spec_ss(s, x0.end());
        if !(x1 is Done) {
            halt(x1)
        } else {
            let name = spec_c_ident(s, x1.end());
            if !(name is Done) {
                halt(name)
            } else {
                let x3 = spec_char(s, name.end(), ':' as u8);
                if !(x3 is Done) {
                    halt(x3)
                } else {
                    let x4 = spec_ss(s, x3.end());
                    if !(x4 is Done) {
                        halt(x4)
                    } else {
                        let size = spec_u64_s(s, x4.end());
                        if !(size is Done) {
                            halt(size)
                        } else {
                            let x6 = spec_char(s, size.end(), ';' as u8);
                            if !(x6 is Done) {
                                halt(x6)
                            } else {
                                Parsed::Done(x6.end(), SpecDbcElement::EnvVarData(name.value(), size.value()))
                            }
                        }
                    }
                }
            }
        }
    }
}

pub fn envvar_data_at(s: &[u8], i: usize) -> (r: Result<(usize, DbcElement), ParseError>)
    requires
        i <= s@.len(),
    ensures
        agrees(r, spec_envvar_data(s@, i as int)),
        ends_within(r, i as int, s@.len() as int),
{
    let p0 = tag_at(s, i, "ENVVAR_DATA_")?;
    let p1 = ss_at(s, p0)?;
    let (p2, name) = c_ident_at(s, p1)?;
    let p3 = char_at(s, p2, ':' as u8)?;
    let p4 = ss_at(s, p3)?;
    let (p5, size) = u64_s_at(s, p4)?;
    let p6 = char_at(s, p5, ';' as u8)?;
    Ok((p6, DbcElement::EnvVarData(name, size)))
}

pub fn envvar_data(input: &[u8]) -> (r: Result<(&[u8], DbcElement), ParseError>)
    ensures
        answers(input@, r, spec_envvar_data(input@, 0)),
{
    let (j, v) = envvar_data_at(input, 0)?;
    Ok((slice_subrange(input, j, input.len()), v))
}

} // verus!
