//! The parts of a DBC file: version, new symbols, network nodes, and the file as a whole.
use vstd::prelude::*;
use vstd::slice::slice_subrange;
use crate::outcome::{
    ParseError, Parsed, halt, either, completed, complete, complete_pos, agrees, agrees_at,
    ends_within, at_within, answers,
};
use crate::lexical::{
    ByteClass, spec_ss, spec_tag, kw, spec_take_while1, spec_line_ending, spec_quoted,
    spec_c_ident, ss_at, tag_at, take_while1_at, line_ending_at, quoted_at, c_ident_at,
};
use crate::signal::{spec_message_definition, message_definition_at};
use crate::environment::{spec_environment_variable, environment_variable_at, spec_envvar_data, envvar_data_at};
use crate::comments::{spec_comment, comment_at};
use crate::values::{
    spec_value_description_for_env_var, value_description_for_env_var_at,
    spec_value_description_for_signal, value_description_for_signal_at,
};
use crate::attributes::{spec_attribute_value_for_object, attribute_value_for_object_at, spec_attribute_default, attribute_default_at};
use crate::types::{DbcElement, SpecDbcElement, Version, Symbol, DbcDefinition, SpecDbcDefinition};

verus! {

/// `VERSION` and the quoted version text.
pub open spec fn spec_version(s: Seq<u8>, i: int) -> Parsed<Seq<char>> {
    let x0 = spec_tag(s, i, kw("VERSION"));
    if !(x0 is Done) {
        halt(x0)
    } else {
        let x1 = spec_ss(s, x0.end());
        if !(x1 is Done) {
            halt(x1)
        } else {
            let v = spec_quoted(s, x1.end());
            if !(v is Done) {
                halt(v)
            } else {
                Parsed::Done(v.end(), v.value())
            }
        }
    }
}

pub fn version_at(s: &[u8], i: usize) -> (r: Result<(usize, Version), ParseError>)
    requires
        i <= s@.len(),
        !(spec_version(s@, i as int) is Abort),
    ensures
        agrees(r, spec_version(s@, i as int)),
        ends_within(r, i as int, s@.len() as int),
{
    let p0 = tag_at(s, i, "VERSION")?;
    let p1 = ss_at(s, p0)?;
    let (p2, v) = quoted_at(s, p1)?;
    Ok((p2, Version(v)))
}

pub fn version(input: &[u8]) -> (r: Result<(&[u8], Version), ParseError>)
    requires
        !(spec_version(input@, 0) is Abort),
    ensures
        answers(input@, r, spec_version(input@, 0)),
{
    let (j, v) = version_at(input, 0)?;
    Ok((slice_subrange(input, j, input.len()), v))
}

/// Blanks and a symbol name.
pub open spec fn spec_symbol(s: Seq<u8>, i: int) -> Parsed<Seq<char>> {
    let x0 = spec_take_while1(s, i, ByteClass::Blank);
    if !(x0 is Done) {
        halt(x0)
    } else {
        let name = spec_c_ident(s, x0.end());
        if !(name is Done) {
            halt(name)
        } else {
            Parsed::Done(name.end(), name.value())
        }
    }
}

pub fn symbol_at(s: &[u8], i: usize) -> (r: Result<(usize, Symbol), ParseError>)
    requires
        i <= s@.len(),
    ensures
        agrees(r, spec_symbol(s@, i as int)),
        ends_within(r, i as int, s@.len() as int),
{
    let p0 = take_while1_at(s, i, ByteClass::Blank)?;
    let (p1, name) = c_ident_at(s, p0)?;
    Ok((p1, Symbol(name)))
}

pub fn symbol(input: &[u8]) -> (r: Result<(&[u8], Symbol), ParseError>)
    ensures
        answers(input@, r, spec_symbol(input@, 0)),
{
    let (j, v) = symbol_at(input, 0)?;
    Ok((slice_subrange(input, j, input.len()), v))
}

/// `NS_ :` and the new symbols, one per line.
pub open spec fn spec_new_symbols(s: Seq<u8>, i: int) -> Parsed<Seq<Seq<char>>> {
    let x0 = spec_tag(s, i, kw("NS_ :"));
    if !(x0 is Done) {
        halt(x0)
    } else {
        let x1 = spec_line_ending(s, x0.end());
        if !(x1 is Done) {
            halt(x1)
        } else {
            let symbols = spec_symbol_list(s, x1.end());
            if !(symbols is Done) {
                halt(symbols)
            } else {
                Parsed::Done(symbols.end(), symbols.value())
            }
        }
    }
}

pub fn new_symbols_at(s: &[u8], i: usize) -> (r: Result<(usize, Vec<Symbol>), ParseError>)
    requires
        i <= s@.len(),
    ensures
        agrees(r, spec_new_symbols(s@, i as int)),
        ends_within(r, i as int, s@.len() as int),
{
    let p0 = tag_at(s, i, "NS_ :")?;
    let p1 = line_ending_at(s, p0)?;
    let (p2, symbols) = symbol_list_at(s, p1)?;
    Ok((p2, symbols))
}

pub fn new_symbols(input: &[u8]) -> (r: Result<(&[u8], Vec<Symbol>), ParseError>)
    ensures
        answers(input@, r, spec_new_symbols(input@, 0)),
{
    let (j, v) = new_symbols_at(input, 0)?;
    Ok((slice_subrange(input, j, input.len()), v))
}

/// `BU_:` and the names of the nodes, separated by single spaces.
pub open spec fn spec_network_node(s: Seq<u8>, i: int) -> Parsed<SpecDbcElement> {
    let x0 = spec_tag(s, i, kw("BU_:"));
    if !(x0 is Done) {
        halt(x0)
    } else {
        let x1 = spec_ss(s, x0.end());
        if !(x1 is Done) {
            halt(x1)
        } else {
            let nodes = spec_node_names(s, x1.end());
            if !(nodes is Done) {
                halt(nodes)
            } else {
                Parsed::Done(nodes.end(), SpecDbcElement::NetworkNode(nodes.value()))
            }
        }
    }
}

pub fn network_node_at(s: &[u8], i: usize) -> (r: Result<(usize, DbcElement), ParseError>)
    requires
        i <= s@.len(),
    ensures
        agrees(r, spec_network_node(s@, i as int)),
        ends_within(r, i as int, s@.len() as int),
{
    let p0 = tag_at(s, i, "BU_:")?;
    let p1 = ss_at(s, p0)?;
    let (p2, nodes) = node_names_at(s, p1)?;
    Ok((p2, DbcElement::NetworkNode(nodes)))
}

pub fn network_node(input: &[u8]) -> (r: Result<(&[u8], DbcElement), ParseError>)
    ensures
        answers(input@, r, spec_network_node(input@, 0)),
{
    let (j, v) = network_node_at(input, 0)?;
    Ok((slice_subrange(input, j, input.len()), v))
}

/// One element of a DBC file; the kinds are tried in this order.
pub open spec fn spec_dbc_element(s: Seq<u8>, i: int) -> Parsed<SpecDbcElement> {
    either(spec_message_definition(s, i), either(spec_environment_variable(s, i), either(spec_comment(s, i), either(spec_value_description_for_env_var(s, i), either(spec_value_description_for_signal(s, i), either(spec_attribute_value_for_object(s, i), either(spec_network_node(s, i), either(spec_envvar_data(s, i), spec_attribute_default(s, i)))))))))
}

pub fn dbc_element_at(s: &[u8], i: usize) -> (r: Result<(usize, DbcElement), ParseError>)
    requires
        i <= s@.len(),
        !(spec_dbc_element(s@, i as int) is Abort),
    ensures
        agrees(r, spec_dbc_element(s@, i as int)),
        ends_within(r, i as int, s@.len() as int),
{
    match message_definition_at(s, i) {
        Err(ParseError::Error) => {}
        other => {
            return other;
        },
    }
    match environment_variable_at(s, i) {
        Err(ParseError::Error) => {}
        other => {
            return other;
        },
    }
    match comment_at(s, i) {
        Err(ParseError::Error) => {}
        other => {
            return other;
        },
    }
    match value_description_for_env_var_at(s, i) {
        Err(ParseError::Error) => {}
        other => {
            return other;
        },
    }
    match value_description_for_signal_at(s, i) {
        Err(ParseError::Error) => {}
        other => {
            return other;
        },
    }
    match attribute_value_for_object_at(s, i) {
        Err(ParseError::Error) => {}
        other => {
            return other;
        },
    }
    match network_node_at(s, i) {
        Err(ParseError::Error) => {}
        other => {
            return other;
        },
    }
    match envvar_data_at(s, i) {
        Err(ParseError::Error) => {}
        other => {
            return other;
        },
    }
    attribute_default_at(s, i)
}

pub fn dbc_element(input: &[u8]) -> (r: Result<(&[u8], DbcElement), ParseError>)
    requires
        !(spec_dbc_element(input@, 0) is Abort),
    ensures
        answers(input@, r, spec_dbc_element(input@, 0)),
{
    let (j, v) = dbc_element_at(input, 0)?;
    Ok((slice_subrange(input, j, input.len()), v))
}

/// One or more symbols, separated by line endings.
pub open spec fn spec_symbol_list(s: Seq<u8>, i: int) -> Parsed<Seq<Seq<char>>> {
    let first = spec_symbol(s, i);
    if !(first is Done) {
        halt(first)
    } else if first.end() == i {
        Parsed::Fail(ParseError::Error)
    } else {
        spec_more_symbols(s, first.end(), seq![first.value()])
    }
}

/// The rest of the list after the elements `acc`, from position `p`: it ends before a
/// separator or an element that does not match or does not move forward. (No element
/// ends past the input; that bound only lets the definition terminate.)
pub open spec fn spec_more_symbols(s: Seq<u8>, p: int, acc: Seq<Seq<char>>) -> Parsed<Seq<Seq<char>>>
    decreases s.len() - p,
{
    let sep = spec_line_ending(s, p);
    if sep matches Parsed::Fail(ParseError::Error) {
        Parsed::Done(p, acc)
    } else if !(sep is Done) {
        halt(sep)
    } else {
        let e = spec_symbol(s, sep.end());
        if e matches Parsed::Fail(ParseError::Error) {
            Parsed::Done(p, acc)
        } else if !(e is Done) {
            halt(e)
        } else if sep.end() <= p || e.end() <= sep.end() || e.end() > s.len() {
            Parsed::Done(p, acc)
        } else {
            spec_more_symbols(s, e.end(), acc.push(e.value()))
        }
    }
}

pub fn symbol_list_at(s: &[u8], i: usize) -> (r: Result<(usize, Vec<Symbol>), ParseError>)
    requires
        i <= s@.len(),
    ensures
        agrees(r, spec_symbol_list(s@, i as int)),
        ends_within(r, i as int, s@.len() as int),
{
    let (j, v) = symbol_at(s, i)?;
    if j == i {
        return Err(ParseError::Error);
    }
    let mut acc: Vec<Symbol> = Vec::new();
    acc.push(v);
    assert(acc.deep_view() =~= seq![spec_symbol(s@, i as int).value()]);
    let mut p = j;
    loop
        invariant
            i <= p <= s@.len(),
            spec_symbol_list(s@, i as int) == spec_more_symbols(s@, p as int, acc.deep_view()),
        decreases s@.len() - p,
    {
        match line_ending_at(s, p) {
            Err(ParseError::Error) => {
                return Ok((p, acc));
            },
            Err(e) => {
                return Err(e);
            },
            Ok(q) => match symbol_at(s, q) {
                Err(ParseError::Error) => {
                    return Ok((p, acc));
                },
                Err(e) => {
                    return Err(e);
                },
                Ok((k, v)) => {
                    if q <= p || k <= q {
                        return Ok((p, acc));
                    }
                    let ghost before = acc.deep_view();
                    acc.push(v);
                    assert(acc.deep_view() =~= before.push(v.deep_view()));
                    p = k;
                },
            },
        }
    }
}

/// One or more identifiers, separated by single spaces.
pub open spec fn spec_node_names(s: Seq<u8>, i: int) -> Parsed<Seq<Seq<char>>> {
    let first = spec_c_ident(s, i);
    if !(first is Done) {
        halt(first)
    } else if first.end() == i {
        Parsed::Fail(ParseError::Error)
    } else {
        spec_more_node_names(s, first.end(), seq![first.value()])
    }
}

/// The rest of the list after the elements `acc`, from position `p`: it ends before a
/// separator or an element that does not match or does not move forward. (No element
/// ends past the input; that bound only lets the definition terminate.)
pub open spec fn spec_more_node_names(s: Seq<u8>, p: int, acc: Seq<Seq<char>>) -> Parsed<Seq<Seq<char>>>
    decreases s.len() - p,
{
    let sep = spec_ss(s, p);
    if sep matches Parsed::Fail(ParseError::Error) {
        Parsed::Done(p, acc)
    } else if !(sep is Done) {
        halt(sep)
    } else {
        let e = spec_c_ident(s, sep.end());
        if e matches Parsed::Fail(ParseError::Error) {
            Parsed::Done(p, acc)
        } else if !(e is Done) {
            halt(e)
        } else if sep.end() <= p || e.end() <= sep.end() || e.end() > s.len() {
            Parsed::Done(p, acc)
        } else {
            spec_more_node_names(s, e.end(), acc.push(e.value()))
        }
    }
}

pub fn node_names_at(s: &[u8], i: usize) -> (r: Result<(usize, Vec<String>), ParseError>)
    requires
        i <= s@.len(),
    ensures
        agrees(r, spec_node_names(s@, i as int)),
        ends_within(r, i as int, s@.len() as int),
{
    let (j, v) = c_ident_at(s, i)?;
    if j == i {
        return Err(ParseError::Error);
    }
    let mut acc: Vec<String> = Vec::new();
    acc.push(v);
    assert(acc.deep_view() =~= seq![spec_c_ident(s@, i as int).value()]);
    let mut p = j;
    loop
        invariant
            i <= p <= s@.len(),
            spec_node_names(s@, i as int) == spec_more_node_names(s@, p as int, acc.deep_view()),
        decreases s@.len() - p,
    {
        match ss_at(s, p) {
            Err(ParseError::Error) => {
                return Ok((p, acc));
            },
            Err(e) => {
                return Err(e);
            },
            Ok(q) => match c_ident_at(s, q) {
                Err(ParseError::Error) => {
                    return Ok((p, acc));
                },
                Err(e) => {
                    return Err(e);
                },
                Ok((k, v)) => {
                    if q <= p || k <= q {
                        return Ok((p, acc));
                    }
                    let ghost before = acc.deep_view();
                    acc.push(v);
                    assert(acc.deep_view() =~= before.push(v.deep_view()));
                    p = k;
                },
            },
        }
    }
}

/// One or more elements separated by whitespace, where input that ends early
/// ends the list.
pub open spec fn spec_element_list(s: Seq<u8>, i: int) -> Parsed<Seq<SpecDbcElement>> {
    let first = completed(spec_dbc_element(s, i));
    if !(first is Done) {
        halt(first)
    } else if first.end() == i {
        Parsed::Fail(ParseError::Error)
    } else {
        spec_more_elements(s, first.end(), seq![first.value()])
    }
}

/// The rest of the list after the elements `acc`, from position `p`: it ends before a
/// separator or an element that does not match or does not move forward. (No element
/// ends past the input; that bound only lets the definition terminate.)
pub open spec fn spec_more_elements(s: Seq<u8>, p: int, acc: Seq<SpecDbcElement>) -> Parsed<Seq<SpecDbcElement>>
    decreases s.len() - p,
{
    let sep = completed(spec_take_while1(s, p, ByteClass::Whitespace));
    if sep matches Parsed::Fail(ParseError::Error) {
        Parsed::Done(p, acc)
    } else if !(sep is Done) {
        halt(sep)
    } else {
        let e = completed(spec_dbc_element(s, sep.end()));
        if e matches Parsed::Fail(ParseError::Error) {
            Parsed::Done(p, acc)
        } else if !(e is Done) {
            halt(e)
        } else if sep.end() <= p || e.end() <= sep.end() || e.end() > s.len() {
            Parsed::Done(p, acc)
        } else {
            spec_more_elements(s, e.end(), acc.push(e.value()))
        }
    }
}

pub fn element_list_at(s: &[u8], i: usize) -> (r: Result<(usize, Vec<DbcElement>), ParseError>)
    requires
        i <= s@.len(),
        !(spec_element_list(s@, i as int) is Abort),
    ensures
        agrees(r, spec_element_list(s@, i as int)),
        ends_within(r, i as int, s@.len() as int),
{
    let (j, v) = complete(dbc_element_at(s, i))?;
    if j == i {
        return Err(ParseError::Error);
    }
    let mut acc: Vec<DbcElement> = Vec::new();
    acc.push(v);
    assert(acc.deep_view() =~= seq![completed(spec_dbc_element(s@, i as int)).value()]);
    let mut p = j;
    loop
        invariant
            i <= p <= s@.len(),
            !(spec_element_list(s@, i as int) is Abort),
            spec_element_list(s@, i as int) == spec_more_elements(s@, p as int, acc.deep_view()),
        decreases s@.len() - p,
    {
        match complete_pos(take_while1_at(s, p, ByteClass::Whitespace)) {
            Err(ParseError::Error) => {
                return Ok((p, acc));
            },
            Err(e) => {
                return Err(e);
            },
            Ok(q) => match complete(dbc_element_at(s, q)) {
                Err(ParseError::Error) => {
                    return Ok((p, acc));
                },
                Err(e) => {
                    return Err(e);
                },
                Ok((k, v)) => {
                    if q <= p || k <= q {
                        return Ok((p, acc));
                    }
                    let ghost before = acc.deep_view();
                    acc.push(v);
                    assert(acc.deep_view() =~= before.push(v.deep_view()));
                    p = k;
                },
            },
        }
    }
}

/// Optional whitespace (`opt!(multispace)`); where the input ends in it, the answer is
/// `Incomplete`.
pub open spec fn spec_opt_multispace(s: Seq<u8>, i: int) -> Parsed<()> {
    let m = spec_take_while1(s, i, ByteClass::Whitespace);
    if m matches Parsed::Fail(ParseError::Error) {
        Parsed::Done(i, ())
    } else {
        m
    }
}

fn opt_multispace_at(s: &[u8], i: usize) -> (r: Result<usize, ParseError>)
    requires
        i <= s@.len(),
    ensures
        agrees_at(r, spec_opt_multispace(s@, i as int)),
        at_within(r, i as int, s@.len() as int),
{
    match take_while1_at(s, i, ByteClass::Whitespace) {
        Err(ParseError::Error) => Ok(i),
        other => other,
    }
}

/// A whole DBC file: the version, the new symbols and the elements, with optional
/// whitespace before each part.
pub open spec fn spec_dbc_definition(s: Seq<u8>, i: int) -> Parsed<SpecDbcDefinition> {
    let x0 = spec_opt_multispace(s, i);
    if !(x0 is Done) {
        halt(x0)
    } else {
        let version = spec_version(s, x0.end());
        if !(version is Done) {
            halt(version)
        } else {
            let x2 = spec_opt_multispace(s, version.end());
            if !(x2 is Done) {
                halt(x2)
            } else {
                let symbols = spec_new_symbols(s, x2.end());
                if !(symbols is Done) {
                    halt(symbols)
                } else {
                    let x4 = spec_opt_multispace(s, symbols.end());
                    if !(x4 is Done) {
                        halt(x4)
                    } else {
                        let elements = spec_element_list(s, x4.end());
                        if !(elements is Done) {
                            halt(elements)
                        } else {
                            Parsed::Done(elements.end(), SpecDbcDefinition { version: version.value(), symbols: symbols.value(), elements: elements.value() })
                        }
                    }
                }
            }
        }
    }
}

pub fn dbc_definition_at(s: &[u8], i: usize) -> (r: Result<(usize, DbcDefinition), ParseError>)
    requires
        i <= s@.len(),
        !(spec_dbc_definition(s@, i as int) is Abort),
    ensures
        agrees(r, spec_dbc_definition(s@, i as int)),
        ends_within(r, i as int, s@.len() as int),
{
    let p0 = opt_multispace_at(s, i)?;
    let (p1, version) = version_at(s, p0)?;
    let p2 = opt_multispace_at(s, p1)?;
    let (p3, symbols) = new_symbols_at(s, p2)?;
    let p4 = opt_multispace_at(s, p3)?;
    let (p5, elements) = element_list_at(s, p4)?;
    Ok((p5, DbcDefinition { version, symbols, elements }))
}

pub fn dbc_definition(input: &[u8]) -> (r: Result<(&[u8], DbcDefinition), ParseError>)
    requires
        !(spec_dbc_definition(input@, 0) is Abort),
    ensures
        answers(input@, r, spec_dbc_definition(input@, 0)),
{
    let (j, v) = dbc_definition_at(input, 0)?;
    Ok((slice_subrange(input, j, input.len()), v))
}

} // verus!
