//! Messages and their signals: `BO_` definitions and the `SG_` lines under them.
use vstd::prelude::*;
use vstd::slice::slice_subrange;
use crate::outcome::{ParseError, Parsed, halt, with_value, either, agrees, ends_within, answers};
use crate::lexical::{
    ByteClass, spec_char, spec_ss, spec_tag, kw, spec_take_while1, spec_line_ending, spec_u64_s,
    spec_c_ident, spec_quoted, spec_double, spec_text_till, char_at, ss_at, tag_at,
    take_while1_at, line_ending_at, u64_s_at, c_ident_at, quoted_at, double_at, text_till_at,
};
use crate::types::{
    Endianess, ValueType, SignalType, MessageId, SignalCommentId, Signal, SpecSignal, DbcElement,
    SpecDbcElement, FloatLiteral,
};

verus! {

pub open spec fn spec_little_endian(s: Seq<u8>, i: int) -> Parsed<Endianess> {
    with_value(spec_char(s, i, '1' as u8), Endianess::LittleEndian)
}

pub open spec fn spec_big_endian(s: Seq<u8>, i: int) -> Parsed<Endianess> {
    with_value(spec_char(s, i, '0' as u8), Endianess::BigEndian)
}

/// `1` is little endian, `0` big endian.
pub open spec fn spec_endianess(s: Seq<u8>, i: int) -> Parsed<Endianess> {
    either(spec_little_endian(s, i), spec_big_endian(s, i))
}

pub fn little_endian_at(s: &[u8], i: usize) -> (r: Result<(usize, Endianess), ParseError>)
    requires
        i <= s@.len(),
    ensures
        agrees(r, spec_little_endian(s@, i as int)),
        ends_within(r, i as int, s@.len() as int),
{
    let j = char_at(s, i, '1' as u8)?;
    Ok((j, Endianess::LittleEndian))
}

pub fn big_endian_at(s: &[u8], i: usize) -> (r: Result<(usize, Endianess), ParseError>)
    requires
        i <= s@.len(),
    ensures
        agrees(r, spec_big_endian(s@, i as int)),
        ends_within(r, i as int, s@.len() as int),
{
    let j = char_at(s, i, '0' as u8)?;
    Ok((j, Endianess::BigEndian))
}

pub fn endianess_at(s: &[u8], i: usize) -> (r: Result<(usize, Endianess), ParseError>)
    requires
        i <= s@.len(),
    ensures
        agrees(r, spec_endianess(s@, i as int)),
        ends_within(r, i as int, s@.len() as int),
{
    match little_endian_at(s, i) {
        Err(ParseError::Error) => big_endian_at(s, i),
        other => other,
    }
}

pub fn little_endian(input: &[u8]) -> (r: Result<(&[u8], Endianess), ParseError>)
    ensures
        answers(input@, r, spec_little_endian(input@, 0)),
{
    let (j, v) = little_endian_at(input, 0)?;
    Ok((slice_subrange(input, j, input.len()), v))
}

pub fn big_endian(input: &[u8]) -> (r: Result<(&[u8], Endianess), ParseError>)
    ensures
        answers(input@, r, spec_big_endian(input@, 0)),
{
    let (j, v) = big_endian_at(input, 0)?;
    Ok((slice_subrange(input, j, input.len()), v))
}

pub fn endianess(input: &[u8]) -> (r: Result<(&[u8], Endianess), ParseError>)
    ensures
        answers(input@, r, spec_endianess(input@, 0)),
{
    let (j, v) = endianess_at(input, 0)?;
    Ok((slice_subrange(input, j, input.len()), v))
}

/// A message id: a decimal `u64`.
pub open spec fn spec_message_id(s: Seq<u8>, i: int) -> Parsed<u64> {
    spec_u64_s(s, i)
}

pub fn message_id_at(s: &[u8], i: usize) -> (r: Result<(usize, MessageId), ParseError>)
    requires
        i <= s@.len(),
    ensures
        agrees(r, spec_message_id(s@, i as int)),
        ends_within(r, i as int, s@.len() as int),
{
    let (j, v) = u64_s_at(s, i)?;
    Ok((j, MessageId(v)))
}

pub fn message_id(input: &[u8]) -> (r: Result<(&[u8], MessageId), ParseError>)
    ensures
        answers(input@, r, spec_message_id(input@, 0)),
{
    let (j, v) = message_id_at(input, 0)?;
    Ok((slice_subrange(input, j, input.len()), v))
}

/// The id of the message of a signal comment: a decimal `u64`.
pub open spec fn spec_signal_comment_id(s: Seq<u8>, i: int) -> Parsed<u64> {
    spec_u64_s(s, i)
}

pub fn signal_comment_id_at(s: &[u8], i: usize) -> (r: Result<(usize, SignalCommentId), ParseError>)
    requires
        i <= s@.len(),
    ensures
        agrees(r, spec_signal_comment_id(s@, i as int)),
        ends_within(r, i as int, s@.len() as int),
{
    let (j, v) = u64_s_at(s, i)?;
    Ok((j, SignalCommentId(v)))
}

pub fn signal_comment_id(input: &[u8]) -> (r: Result<(&[u8], SignalCommentId), ParseError>)
    ensures
        answers(input@, r, spec_signal_comment_id(input@, 0)),
{
    let (j, v) = signal_comment_id_at(input, 0)?;
    Ok((slice_subrange(input, j, input.len()), v))
}

pub open spec fn spec_signed(s: Seq<u8>, i: int) -> Parsed<ValueType> {
    with_value(spec_char(s, i, '-' as u8), ValueType::Signed)
}

pub open spec fn spec_unsigned(s: Seq<u8>, i: int) -> Parsed<ValueType> {
    with_value(spec_char(s, i, '+' as u8), ValueType::Unsigned)
}

/// `-` is signed, `+` unsigned.
pub open spec fn spec_value_type(s: Seq<u8>, i: int) -> Parsed<ValueType> {
    either(spec_signed(s, i), spec_unsigned(s, i))
}

pub fn signed_at(s: &[u8], i: usize) -> (r: Result<(usize, ValueType), ParseError>)
    requires
        i <= s@.len(),
    ensures
        agrees(r, spec_signed(s@, i as int)),
        ends_within(r, i as int, s@.len() as int),
{
    let j = char_at(s, i, '-' as u8)?;
    Ok((j, ValueType::Signed))
}

pub fn unsigned_at(s: &[u8], i: usize) -> (r: Result<(usize, ValueType), ParseError>)
    requires
        i <= s@.len(),
    ensures
        agrees(r, spec_unsigned(s@, i as int)),
        ends_within(r, i as int, s@.len() as int),
{
    let j = char_at(s, i, '+' as u8)?;
    Ok((j, ValueType::Unsigned))
}

pub fn value_type_at(s: &[u8], i: usize) -> (r: Result<(usize, ValueType), ParseError>)
    requires
        i <= s@.len(),
    ensures
        agrees(r, spec_value_type(s@, i as int)),
        ends_within(r, i as int, s@.len() as int),
{
    match signed_at(s, i) {
        Err(ParseError::Error) => unsigned_at(s, i),
        other => other,
    }
}

pub fn signed(input: &[u8]) -> (r: Result<(&[u8], ValueType), ParseError>)
    ensures
        answers(input@, r, spec_signed(input@, 0)),
{
    let (j, v) = signed_at(input, 0)?;
    Ok((slice_subrange(input, j, input.len()), v))
}

pub fn unsigned(input: &[u8]) -> (r: Result<(&[u8], ValueType), ParseError>)
    ensures
        answers(input@, r, spec_unsigned(input@, 0)),
{
    let (j, v) = unsigned_at(input, 0)?;
    Ok((slice_subrange(input, j, input.len()), v))
}

pub fn value_type(input: &[u8]) -> (r: Result<(&[u8], ValueType), ParseError>)
    ensures
        answers(input@, r, spec_value_type(input@, 0)),
{
    let (j, v) = value_type_at(input, 0)?;
    Ok((slice_subrange(input, j, input.len()), v))
}

/// `m`, the number of the multiplexer value, and a space.
pub open spec fn spec_multiplexer(s: Seq<u8>, i: int) -> Parsed<SignalType> {
    let a = spec_char(s, i, 'm' as u8);
    if !(a is Done) {
        halt(a)
    } else {
        let d = spec_u64_s(s, a.end());
        if !(d is Done) {
            halt(d)
        } else {
            with_value(spec_ss(s, d.end()), SignalType::MultiplexedSignal(d.value()))
        }
    }
}

/// `M` and a space.
pub open spec fn spec_multiplexor(s: Seq<u8>, i: int) -> Parsed<SignalType> {
    let a = spec_char(s, i, 'M' as u8);
    if !(a is Done) {
        halt(a)
    } else {
        with_value(spec_ss(s, a.end()), SignalType::Multiplexor)
    }
}

/// A space alone.
pub open spec fn spec_plain(s: Seq<u8>, i: int) -> Parsed<SignalType> {
    with_value(spec_ss(s, i), SignalType::Plain)
}

pub open spec fn spec_signal_type(s: Seq<u8>, i: int) -> Parsed<SignalType> {
    either(spec_multiplexer(s, i), either(spec_multiplexor(s, i), spec_plain(s, i)))
}

pub fn multiplexer_at(s: &[u8], i: usize) -> (r: Result<(usize, SignalType), ParseError>)
    requires
        i <= s@.len(),
    ensures
        agrees(r, spec_multiplexer(s@, i as int)),
        ends_within(r, i as int, s@.len() as int),
{
    let a = char_at(s, i, 'm' as u8)?;
    let (b, d) = u64_s_at(s, a)?;
    let c = ss_at(s, b)?;
    Ok((c, SignalType::MultiplexedSignal(d)))
}

pub fn multiplexor_at(s: &[u8], i: usize) -> (r: Result<(usize, SignalType), ParseError>)
    requires
        i <= s@.len(),
    ensures
        agrees(r, spec_multiplexor(s@, i as int)),
        ends_within(r, i as int, s@.len() as int),
{
    let a = char_at(s, i, 'M' as u8)?;
    let b = ss_at(s, a)?;
    Ok((b, SignalType::Multiplexor))
}

pub fn plain_at(s: &[u8], i: usize) -> (r: Result<(usize, SignalType), ParseError>)
    requires
        i <= s@.len(),
    ensures
        agrees(r, spec_plain(s@, i as int)),
        ends_within(r, i as int, s@.len() as int),
{
    let a = ss_at(s, i)?;
    Ok((a, SignalType::Plain))
}

pub fn signal_type_at(s: &[u8], i: usize) -> (r: Result<(usize, SignalType), ParseError>)
    requires
        i <= s@.len(),
    ensures
        agrees(r, spec_signal_type(s@, i as int)),
        ends_within(r, i as int, s@.len() as int),
{
    match multiplexer_at(s, i) {
        Err(ParseError::Error) => match multiplexor_at(s, i) {
            Err(ParseError::Error) => plain_at(s, i),
            other => other,
        },
        other => other,
    }
}

pub fn multiplexer(input: &[u8]) -> (r: Result<(&[u8], SignalType), ParseError>)
    ensures
        answers(input@, r, spec_multiplexer(input@, 0)),
{
    let (j, v) = multiplexer_at(input, 0)?;
    Ok((slice_subrange(input, j, input.len()), v))
}

pub fn multiplexor(input: &[u8]) -> (r: Result<(&[u8], SignalType), ParseError>)
    ensures
        answers(input@, r, spec_multiplexor(input@, 0)),
{
    let (j, v) = multiplexor_at(input, 0)?;
    Ok((slice_subrange(input, j, input.len()), v))
}

pub fn plain(input: &[u8]) -> (r: Result<(&[u8], SignalType), ParseError>)
    ensures
        answers(input@, r, spec_plain(input@, 0)),
{
    let (j, v) = plain_at(input, 0)?;
    Ok((slice_subrange(input, j, input.len()), v))
}

pub fn signal_type(input: &[u8]) -> (r: Result<(&[u8], SignalType), ParseError>)
    ensures
        answers(input@, r, spec_signal_type(input@, 0)),
{
    let (j, v) = signal_type_at(input, 0)?;
    Ok((slice_subrange(input, j, input.len()), v))
}

/// `c_ident_vec`: one or more C identifiers separated by `,`.
pub open spec fn spec_c_ident_vec(s: Seq<u8>, i: int) -> Parsed<Seq<Seq<char>>> {
    let first = spec_c_ident(s, i);
    if !(first is Done) {
        halt(first)
    } else if first.end() == i {
        Parsed::Fail(ParseError::Error)
    } else {
        spec_more_idents(s, first.end(), seq![first.value()])
    }
}

/// The rest of a list of identifiers, after those in `acc`, from position `p`. The list
/// ends before a separator or an identifier that does not match, or that does not move
/// forward. (No identifier ends past the input; that bound only lets the definition
/// terminate.)
pub open spec fn spec_more_idents(s: Seq<u8>, p: int, acc: Seq<Seq<char>>) -> Parsed<
    Seq<Seq<char>>,
>
    decreases s.len() - p,
{
    let sep = spec_char(s, p, ',' as u8);
    if sep matches Parsed::Fail(ParseError::Error) {
        Parsed::Done(p, acc)
    } else if !(sep is Done) {
        halt(sep)
    } else {
        let e = spec_c_ident(s, sep.end());
        if e matches Parsed::Fail(ParseError::Error) {
            Parsed::Done(p, acc)
        } else if !(e is Done) {
            halt(e)
        } else if e.end() <= sep.end() || e.end() > s.len() || sep.end() <= p {
            Parsed::Done(p, acc)
        } else {
            spec_more_idents(s, e.end(), acc.push(e.value()))
        }
    }
}

pub fn c_ident_vec_at(s: &[u8], i: usize) -> (r: Result<(usize, Vec<String>), ParseError>)
    requires
        i <= s@.len(),
    ensures
        agrees(r, spec_c_ident_vec(s@, i as int)),
        ends_within(r, i as int, s@.len() as int),
{
    let (j, v) = c_ident_at(s, i)?;
    if j == i {
        return Err(ParseError::Error);
    }
    let mut acc: Vec<String> = Vec::new();
    acc.push(v);
    assert(acc.deep_view() =~= seq![spec_c_ident(s@, i as int).value()]);
    let mut p = j;
    loop
        invariant
            i <= p <= s@.len(),
            spec_c_ident_vec(s@, i as int) == spec_more_idents(s@, p as int, acc.deep_view()),
        decreases s@.len() - p,
    {
        match char_at(s, p, ',' as u8) {
            Err(ParseError::Error) => {
                return Ok((p, acc));
            },
            Err(e) => {
                return Err(e);
            },
            Ok(q) => match c_ident_at(s, q) {
                Err(ParseError::Error) => {
                    return Ok((p, acc));
                },
                Err(e) => {
                    return Err(e);
                },
                Ok((k, v)) => {
                    if k <= q || q <= p {
                        return Ok((p, acc));
                    }
                    let ghost before = acc.deep_view();
                    acc.push(v);
                    assert(acc.deep_view() =~= before.push(v@));
                    p = k;
                },
            },
        }
    }
}

pub fn c_ident_vec(input: &[u8]) -> (r: Result<(&[u8], Vec<String>), ParseError>)
    ensures
        answers(input@, r, spec_c_ident_vec(input@, 0)),
{
    let (j, v) = c_ident_vec_at(input, 0)?;
    Ok((slice_subrange(input, j, input.len()), v))
}

pub fn c_ident(input: &[u8]) -> (r: Result<(&[u8], String), ParseError>)
    ensures
        answers(input@, r, spec_c_ident(input@, 0)),
{
    let (j, v) = c_ident_at(input, 0)?;
    Ok((slice_subrange(input, j, input.len()), v))
}

/// Blanks, `SG_`, the signal's name and multiplexing, `:`.
pub open spec fn spec_signal_head(s: Seq<u8>, i: int) -> Parsed<(Seq<char>, SignalType)> {
    let x0 = spec_take_while1(s, i, ByteClass::Blank);
    if !(x0 is Done) {
        halt(x0)
    } else {
        let x1 = spec_tag(s, x0.end(), kw("SG_"));
        if !(x1 is Done) {
            halt(x1)
        } else {
            let x2 = spec_ss(s, x1.end());
            if !(x2 is Done) {
                halt(x2)
            } else {
                let name = spec_c_ident(s, x2.end());
                if !(name is Done) {
                    halt(name)
                } else {
                    let st = spec_signal_type(s, name.end());
                    if !(st is Done) {
                        halt(st)
                    } else {
                        let x5 = spec_char(s, st.end(), ':' as u8);
                        if !(x5 is Done) {
                            halt(x5)
                        } else {
                            let x6 = spec_ss(s, x5.end());
                            if !(x6 is Done) {
                                halt(x6)
                            } else {
                                Parsed::Done(x6.end(), (name.value(), st.value()))
                            }
                        }
                    }
                }
            }
        }
    }
}

pub fn signal_head_at(s: &[u8], i: usize) -> (r: Result<(usize, (String, SignalType)), ParseError>)
    requires
        i <= s@.len(),
    ensures
        agrees(r, spec_signal_head(s@, i as int)),
        ends_within(r, i as int, s@.len() as int),
{
    let p0 = take_while1_at(s, i, ByteClass::Blank)?;
    let p1 = tag_at(s, p0, "SG_")?;
    let p2 = ss_at(s, p1)?;
    let (p3, name) = c_ident_at(s, p2)?;
    let (p4, st) = signal_type_at(s, p3)?;
    let p5 = char_at(s, p4, ':' as u8)?;
    let p6 = ss_at(s, p5)?;
    Ok((p6, (name, st)))
}

/// `offset|length@` with byte order and signedness.
pub open spec fn spec_signal_layout(s: Seq<u8>, i: int) -> Parsed<(u64, u64, Endianess, ValueType)> {
    let offset = spec_u64_s(s, i);
    if !(offset is Done) {
        halt(offset)
    } else {
        let x1 = spec_char(s, offset.end(), '|' as u8);
        if !(x1 is Done) {
            halt(x1)
        } else {
            let length = spec_u64_s(s, x1.end());
            if !(length is Done) {
                halt(length)
            } else {
                let x3 = spec_char(s, length.end(), '@' as u8);
                if !(x3 is Done) {
                    halt(x3)
                } else {
                    let e = spec_endianess(s, x3.end());
                    if !(e is Done) {
                        halt(e)
                    } else {
                        let vt = spec_value_type(s, e.end());
                        if !(vt is Done) {
                            halt(vt)
                        } else {
                            let x6 = spec_ss(s, vt.end());
                            if !(x6 is Done) {
                                halt(x6)
                            } else {
                                Parsed::Done(x6.end(), (offset.value(), length.value(), e.value(), vt.value()))
                            }
                        }
                    }
                }
            }
        }
    }
}

pub fn signal_layout_at(s: &[u8], i: usize) -> (r: Result<(usize, (u64, u64, Endianess, ValueType)), ParseError>)
    requires
        i <= s@.len(),
    ensures
        agrees(r, spec_signal_layout(s@, i as int)),
        ends_within(r, i as int, s@.len() as int),
{
    let (p0, offset) = u64_s_at(s, i)?;
    let p1 = char_at(s, p0, '|' as u8)?;
    let (p2, length) = u64_s_at(s, p1)?;
    let p3 = char_at(s, p2, '@' as u8)?;
    let (p4, e) = endianess_at(s, p3)?;
    let (p5, vt) = value_type_at(s, p4)?;
    let p6 = ss_at(s, p5)?;
    Ok((p6, (offset, length, e, vt)))
}

/// `(slope,intercept)`.
pub open spec fn spec_signal_scaling(s: Seq<u8>, i: int) -> Parsed<(Seq<char>, Seq<char>)> {
    let x0 = spec_char(s, i, '(' as u8);
    if !(x0 is Done) {
        halt(x0)
    } else {
        let slope = spec_double(s, x0.end());
        if !(slope is Done) {
            halt(slope)
        } else {
            let x2 = spec_char(s, slope.end(), ',' as u8);
            if !(x2 is Done) {
                halt(x2)
            } else {
                let intercept = spec_double(s, x2.end());
                if !(intercept is Done) {
                    halt(intercept)
                } else {
                    let x4 = spec_char(s, intercept.end(), ')' as u8);
                    if !(x4 is Done) {
                        halt(x4)
                    } else {
                        let x5 = spec_ss(s, x4.end());
                        if !(x5 is Done) {
                            halt(x5)
                        } else {
                            Parsed::Done(x5.end(), (slope.value(), intercept.value()))
                        }
                    }
                }
            }
        }
    }
}

pub fn signal_scaling_at(s: &[u8], i: usize) -> (r: Result<(usize, (FloatLiteral, FloatLiteral)), ParseError>)
    requires
        i <= s@.len(),
    ensures
        agrees(r, spec_signal_scaling(s@, i as int)),
        ends_within(r, i as int, s@.len() as int),
{
    let p0 = char_at(s, i, '(' as u8)?;
    let (p1, slope) = double_at(s, p0)?;
    let p2 = char_at(s, p1, ',' as u8)?;
    let (p3, intercept) = double_at(s, p2)?;
    let p4 = char_at(s, p3, ')' as u8)?;
    let p5 = ss_at(s, p4)?;
    Ok((p5, (slope, intercept)))
}

/// `[min|max]`.
pub open spec fn spec_signal_range(s: Seq<u8>, i: int) -> Parsed<(Seq<char>, Seq<char>)> {
    let x0 = spec_char(s, i, '[' as u8);
    if !(x0 is Done) {
        halt(x0)
    } else {
        let min = spec_double(s, x0.end());
        if !(min is Done) {
            halt(min)
        } else {
            let x2 = spec_char(s, min.end(), '|' as u8);
            if !(x2 is Done) {
                halt(x2)
            } else {
                let max = spec_double(s, x2.end());
                if !(max is Done) {
                    halt(max)
                } else {
                    let x4 = spec_char(s, max.end(), ']' as u8);
                    if !(x4 is Done) {
                        halt(x4)
                    } else {
                        let x5 = spec_ss(s, x4.end());
                        if !(x5 is Done) {
                            halt(x5)
                        } else {
                            Parsed::Done(x5.end(), (min.value(), max.value()))
                        }
                    }
                }
            }
        }
    }
}

pub fn signal_range_at(s: &[u8], i: usize) -> (r: Result<(usize, (FloatLiteral, FloatLiteral)), ParseError>)
    requires
        i <= s@.len(),
    ensures
        agrees(r, spec_signal_range(s@, i as int)),
        ends_within(r, i as int, s@.len() as int),
{
    let p0 = char_at(s, i, '[' as u8)?;
    let (p1, min) = double_at(s, p0)?;
    let p2 = char_at(s, p1, '|' as u8)?;
    let (p3, max) = double_at(s, p2)?;
    let p4 = char_at(s, p3, ']' as u8)?;
    let p5 = ss_at(s, p4)?;
    Ok((p5, (min, max)))
}

/// The quoted unit.
pub open spec fn spec_signal_unit(s: Seq<u8>, i: int) -> Parsed<Seq<char>> {
    let unit = spec_quoted(s, i);
    if !(unit is Done) {
        halt(unit)
    } else {
        let x1 = spec_ss(s, unit.end());
        if !(x1 is Done) {
            halt(x1)
        } else {
            Parsed::Done(x1.end(), unit.value())
        }
    }
}

pub fn signal_unit_at(s: &[u8], i: usize) -> (r: Result<(usize, String), ParseError>)
    requires
        i <= s@.len(),
        !(spec_signal_unit(s@, i as int) is Abort),
    ensures
        agrees(r, spec_signal_unit(s@, i as int)),
        ends_within(r, i as int, s@.len() as int),
{
    let (p0, unit) = quoted_at(s, i)?;
    let p1 = ss_at(s, p0)?;
    Ok((p1, unit))
}

/// `SG_` line: a signal of a message.
pub open spec fn spec_signal(s: Seq<u8>, i: int) -> Parsed<SpecSignal> {
    let head = spec_signal_head(s, i);
    if !(head is Done) {
        halt(head)
    } else {
        let layout = spec_signal_layout(s, head.end());
        if !(layout is Done) {
            halt(layout)
        } else {
            let scaling = spec_signal_scaling(s, layout.end());
            if !(scaling is Done) {
                halt(scaling)
            } else {
                let range = spec_signal_range(s, scaling.end());
                if !(range is Done) {
                    halt(range)
                } else {
                    let unit = spec_signal_unit(s, range.end());
                    if !(unit is Done) {
                        halt(unit)
                    } else {
                        let receivers = spec_c_ident_vec(s, unit.end());
                        if !(receivers is Done) {
                            halt(receivers)
                        } else {
                            Parsed::Done(
                                receivers.end(),
                                SpecSignal {
                                    name: head.value().0,
                                    signal_type: head.value().1,
                                    offset: layout.value().0,
                                    length: layout.value().1,
                                    endianess: layout.value().2,
                                    value_type: layout.value().3,
                                    slope: scaling.value().0,
                                    intercept: scaling.value().1,
                                    min: range.value().0,
                                    max: range.value().1,
                                    unit: unit.value(),
                                    receivers: receivers.value(),
                                },
                            )
                        }
                    }
                }
            }
        }
    }
}

pub fn signal_at(s: &[u8], i: usize) -> (r: Result<(usize, Signal), ParseError>)
    requires
        i <= s@.len(),
        !(spec_signal(s@, i as int) is Abort),
    ensures
        agrees(r, spec_signal(s@, i as int)),
        ends_within(r, i as int, s@.len() as int),
{
    let (p0, head) = signal_head_at(s, i)?;
    let (p1, layout) = signal_layout_at(s, p0)?;
    let (p2, scaling) = signal_scaling_at(s, p1)?;
    let (p3, range) = signal_range_at(s, p2)?;
    let (p4, unit) = signal_unit_at(s, p3)?;
    let (p5, receivers) = c_ident_vec_at(s, p4)?;
    Ok((p5, Signal {
            name: head.0,
            signal_type: head.1,
            offset: layout.0,
            length: layout.1,
            endianess: layout.2,
            value_type: layout.3,
            slope: scaling.0,
            intercept: scaling.1,
            min: range.0,
            max: range.1,
            unit,
            receivers,
        }))
}

pub fn signal(input: &[u8]) -> (r: Result<(&[u8], Signal), ParseError>)
    requires
        !(spec_signal(input@, 0) is Abort),
    ensures
        answers(input@, r, spec_signal(input@, 0)),
{
    let (j, v) = signal_at(input, 0)?;
    Ok((slice_subrange(input, j, input.len()), v))
}

/// `BO_`, id, name up to `:`, size and transmitter, to the end of the line.
pub open spec fn spec_message_header(s: Seq<u8>, i: int) -> Parsed<(u64, Seq<char>, u64, Seq<char>)> {
    let x0 = spec_tag(s, i, kw("BO_"));
    if !(x0 is Done) {
        halt(x0)
    } else {
        let x1 = spec_ss(s, x0.end());
        if !(x1 is Done) {
            halt(x1)
        } else {
            let id = spec_message_id(s, x1.end());
            if !(id is Done) {
                halt(id)
            } else {
                let x3 = spec_ss(s, id.end());
                if !(x3 is Done) {
                    halt(x3)
                } else {
                    let name = spec_text_till(s, x3.end(), ByteClass::NotColon);
                    if !(name is Done) {
                        halt(name)
                    } else {
                        let x5 = spec_char(s, name.end(), ':' as u8);
                        if !(x5 is Done) {
                            halt(x5)
                        } else {
                            let x6 = spec_ss(s, x5.end());
                            if !(x6 is Done) {
                                halt(x6)
                            } else {
                                let size = spec_u64_s(s, x6.end());
                                if !(size is Done) {
                                    halt(size)
                                } else {
                                    let x8 = spec_ss(s, size.end());
                                    if !(x8 is Done) {
                                        halt(x8)
                                    } else {
                                        let transmitter = spec_c_ident(s, x8.end());
                                        if !(transmitter is Done) {
                                            halt(transmitter)
                                        } else {
                                            let x10 = spec_line_ending(s, transmitter.end());
                                            if !(x10 is Done) {
                                                halt(x10)
                                            } else {
                                                Parsed::Done(x10.end(), (id.value(), name.value(), size.value(), transmitter.value()))
                                            }
                                        }
                                    }
                                }
                            }
                        }
                    }
                }
            }
        }
    }
}

pub fn message_header_at(s: &[u8], i: usize) -> (r: Result<(usize, (MessageId, String, u64, String)), ParseError>)
    requires
        i <= s@.len(),
        !(spec_message_header(s@, i as int) is Abort),
    ensures
        agrees(r, spec_message_header(s@, i as int)),
        ends_within(r, i as int, s@.len() as int),
{
    let p0 = tag_at(s, i, "BO_")?;
    let p1 = ss_at(s, p0)?;
    let (p2, id) = message_id_at(s, p1)?;
    let p3 = ss_at(s, p2)?;
    let (p4, name) = text_till_at(s, p3, ByteClass::NotColon)?;
    let p5 = char_at(s, p4, ':' as u8)?;
    let p6 = ss_at(s, p5)?;
    let (p7, size) = u64_s_at(s, p6)?;
    let p8 = ss_at(s, p7)?;
    let (p9, transmitter) = c_ident_at(s, p8)?;
    let p10 = line_ending_at(s, p9)?;
    Ok((p10, (id, name, size, transmitter)))
}


/// One or more `SG_` lines, separated by line endings.
pub open spec fn spec_signal_list(s: Seq<u8>, i: int) -> Parsed<Seq<SpecSignal>> {
    let first = spec_signal(s, i);
    if !(first is Done) {
        halt(first)
    } else if first.end() == i {
        Parsed::Fail(ParseError::Error)
    } else {
        spec_more_signals(s, first.end(), seq![first.value()])
    }
}

/// The rest of the list after the elements `acc`, from position `p`: it ends before a
/// separator or an element that does not match or does not move forward. (No element
/// ends past the input; that bound only lets the definition terminate.)
pub open spec fn spec_more_signals(s: Seq<u8>, p: int, acc: Seq<SpecSignal>) -> Parsed<Seq<SpecSignal>>
    decreases s.len() - p,
{
    let sep = spec_line_ending(s, p);
    if sep matches Parsed::Fail(ParseError::Error) {
        Parsed::Done(p, acc)
    } else if !(sep is Done) {
        halt(sep)
    } else {
        let e = spec_signal(s, sep.end());
        if e matches Parsed::Fail(ParseError::Error) {
            Parsed::Done(p, acc)
        } else if !(e is Done) {
            halt(e)
        } else if sep.end() <= p || e.end() <= sep.end() || e.end() > s.len() {
            Parsed::Done(p, acc)
        } else {
            spec_more_signals(s, e.end(), acc.push(e.value()))
        }
    }
}

pub fn signal_list_at(s: &[u8], i: usize) -> (r: Result<(usize, Vec<Signal>), ParseError>)
    requires
        i <= s@.len(),
        !(spec_signal_list(s@, i as int) is Abort),
    ensures
        agrees(r, spec_signal_list(s@, i as int)),
        ends_within(r, i as int, s@.len() as int),
{
    let (j, v) = signal_at(s, i)?;
    if j == i {
        return Err(ParseError::Error);
    }
    let mut acc: Vec<Signal> = Vec::new();
    acc.push(v);
    assert(acc.deep_view() =~= seq![spec_signal(s@, i as int).value()]);
    let mut p = j;
    loop
        invariant
            i <= p <= s@.len(),
            !(spec_signal_list(s@, i as int) is Abort),
            spec_signal_list(s@, i as int) == spec_more_signals(s@, p as int, acc.deep_view()),
        decreases s@.len() - p,
    {
        match line_ending_at(s, p) {
            Err(ParseError::Error) => {
                return Ok((p, acc));
            },
            Err(e) => {
                return Err(e);
            },
            Ok(q) => match signal_at(s, q) {
                Err(ParseError::Error) => {
                    return Ok((p, acc));
                },
                Err(e) => {
                    return Err(e);
                },
                Ok((k, v)) => {
                    if q <= p || k <= q {
                        return Ok((p, acc));
                    }
                    let ghost before = acc.deep_view();
                    acc.push(v);
                    assert(acc.deep_view() =~= before.push(v.deep_view()));
                    p = k;
                },
            },
        }
    }
}

/// `BO_` definition: a message and its signals.
pub open spec fn spec_message_definition(s: Seq<u8>, i: int) -> Parsed<SpecDbcElement> {
    let h = spec_message_header(s, i);
    if !(h is Done) {
        halt(h)
    } else {
        let signals = spec_signal_list(s, h.end());
        if !(signals is Done) {
            halt(signals)
        } else {
            Parsed::Done(signals.end(), SpecDbcElement::Message(h.value().0, false, h.value().1, h.value().2, h.value().3, signals.value()))
        }
    }
}

pub fn message_definition_at(s: &[u8], i: usize) -> (r: Result<(usize, DbcElement), ParseError>)
    requires
        i <= s@.len(),
        !(spec_message_definition(s@, i as int) is Abort),
    ensures
        agrees(r, spec_message_definition(s@, i as int)),
        ends_within(r, i as int, s@.len() as int),
{
    let (p0, h) = message_header_at(s, i)?;
    let (p1, signals) = signal_list_at(s, p0)?;
    Ok((p1, DbcElement::Message(h.0, false, h.1, h.2, h.3, signals)))
}

pub fn message_definition(input: &[u8]) -> (r: Result<(&[u8], DbcElement), ParseError>)
    requires
        !(spec_message_definition(input@, 0) is Abort),
    ensures
        answers(input@, r, spec_message_definition(input@, 0)),
{
    let (j, v) = message_definition_at(input, 0)?;
    Ok((slice_subrange(input, j, input.len()), v))
}


} // verus!
