//! The streaming laws: a parser's answer on some input is final unless it is
//! `Incomplete`. Whatever bytes follow, a success stays the same success and an
//! `Error` stays an `Error`; and a success ends within the input.
use vstd::prelude::*;
use crate::outcome::{settled, ends_in};
use crate::attributes::{spec_attr_def_body, spec_attribute_default, spec_attribute_value, spec_attribute_value_charstr, spec_attribute_value_f64, spec_attribute_value_for_object, spec_attribute_value_int64, spec_attribute_value_uint64, spec_bo_def, spec_bu_def, spec_custom_attr_def, spec_env_variable_attribute_value, spec_message_definition_attribute_value, spec_network_node_attribute_value, spec_object_attribute_value, spec_raw_attribute_value, spec_signal_attribute_value};
use crate::comments::{spec_comment, spec_comment_body, spec_message_definition_comment, spec_signal_comment};
use crate::document::{spec_dbc_element, spec_more_node_names, spec_more_symbols, spec_network_node, spec_new_symbols, spec_node_names, spec_symbol, spec_symbol_list, spec_version};
use crate::environment::{spec_access_kind, spec_access_node, spec_access_node_list, spec_access_node_name, spec_access_node_vector_xxx, spec_access_type, spec_dummy_node_vector_0, spec_dummy_node_vector_1, spec_dummy_node_vector_2, spec_dummy_node_vector_3, spec_env_data, spec_env_float, spec_env_int, spec_env_var_head, spec_env_var_tail, spec_env_var_type, spec_environment_variable, spec_envvar_data, spec_more_access_nodes};
use crate::signal::{spec_big_endian, spec_c_ident_vec, spec_endianess, spec_little_endian, spec_message_definition, spec_message_header, spec_message_id, spec_more_idents, spec_more_signals, spec_multiplexer, spec_multiplexor, spec_plain, spec_signal, spec_signal_comment_id, spec_signal_head, spec_signal_layout, spec_signal_list, spec_signal_range, spec_signal_scaling, spec_signal_type, spec_signal_unit, spec_signed, spec_unsigned, spec_value_type};
use crate::values::{spec_description_end, spec_description_item, spec_more_descriptions, spec_value_description, spec_value_description_for_env_var, spec_value_description_for_signal, spec_value_descriptions};
use crate::types::{SpecSignal, SpecAccessNode, SpecValueDescription};
use crate::lexical::{
    ByteClass, in_class, scan_end, lemma_scan_end, spec_take_while, spec_take_while1, spec_char,
    spec_ss, spec_tag, spec_line_ending, kw, spec_u64_s, sign_end,
    spec_i64_digit, spec_mantissa, spec_exponent, spec_recognize_float, spec_double,
    spec_quoted, spec_text_till, spec_c_ident,
};

verus! {

/// A run of bytes of a class that ends inside the input ends at the same place when more
/// input follows.
pub proof fn lemma_scan_end_stable(s: Seq<u8>, t: Seq<u8>, i: int, c: ByteClass)
    requires
        0 <= i <= s.len(),
        scan_end(s, i, c) < s.len(),
    ensures
        scan_end(s + t, i, c) == scan_end(s, i, c),
    decreases s.len() - i,
{
    assert((s + t)[i] == s[i]);
    if in_class(c, s[i]) {
        lemma_scan_end_stable(s, t, i + 1, c);
    }
}

/// `take_while`: an answer other than `Incomplete` stays the same when more input follows,
/// and a success ends within the input.
pub proof fn lemma_take_while_stable(s: Seq<u8>, t: Seq<u8>, i: int, c: ByteClass)
    requires
        0 <= i <= s.len(),
    ensures
        ends_in(spec_take_while(s, i, c), i, s.len() as int),
        settled(spec_take_while(s, i, c)) ==> spec_take_while(s + t, i, c) == spec_take_while(
            s,
            i,
            c,
        ),
{
    lemma_scan_end(s, i, c);
    if scan_end(s, i, c) < s.len() {
        lemma_scan_end_stable(s, t, i, c);
    }
}

/// `take_while1`: an answer other than `Incomplete` stays the same when more input follows,
/// and a success ends within the input.
pub proof fn lemma_take_while1_stable(s: Seq<u8>, t: Seq<u8>, i: int, c: ByteClass)
    requires
        0 <= i <= s.len(),
    ensures
        ends_in(spec_take_while1(s, i, c), i, s.len() as int),
        settled(spec_take_while1(s, i, c)) ==> spec_take_while1(s + t, i, c)
            == spec_take_while1(s, i, c),
{
    lemma_scan_end(s, i, c);
    if scan_end(s, i, c) < s.len() {
        lemma_scan_end_stable(s, t, i, c);
    }
}

/// `char`: an answer other than `Incomplete` stays the same when more input follows,
/// and a success ends within the input.
pub proof fn lemma_char_stable(s: Seq<u8>, t: Seq<u8>, i: int, b: u8)
    requires
        0 <= i <= s.len(),
    ensures
        ends_in(spec_char(s, i, b), i, s.len() as int),
        settled(spec_char(s, i, b)) ==> spec_char(s + t, i, b) == spec_char(s, i, b),
{
    if i < s.len() {
        assert((s + t)[i] == s[i]);
    }
}

/// `ss`: an answer other than `Incomplete` stays the same when more input follows,
/// and a success ends within the input.
pub proof fn lemma_ss_stable(s: Seq<u8>, t: Seq<u8>, i: int)
    requires
        0 <= i <= s.len(),
    ensures
        ends_in(spec_ss(s, i), i, s.len() as int),
        settled(spec_ss(s, i)) ==> spec_ss(s + t, i) == spec_ss(s, i),
{
    lemma_char_stable(s, t, i, ' ' as u8);
}

/// `tag`: an answer other than `Incomplete` stays the same when more input follows,
/// and a success ends within the input.
pub proof fn lemma_tag_stable(s: Seq<u8>, t: Seq<u8>, i: int, w: Seq<u8>)
    requires
        0 <= i <= s.len(),
    ensures
        ends_in(spec_tag(s, i, w), i, s.len() as int),
        settled(spec_tag(s, i, w)) ==> spec_tag(s + t, i, w) == spec_tag(s, i, w),
{
    let u = s + t;
    if exists|k: int| 0 <= k < w.len() && i + k < s.len() && s[i + k] != w[k] {
        let k = choose|k: int| 0 <= k < w.len() && i + k < s.len() && s[i + k] != w[k];
        assert(u[i + k] == s[i + k]);
    } else if s.len() - i >= w.len() {
        assert forall|k: int| 0 <= k < w.len() && i + k < u.len() implies u[i + k] == w[k] by {
            assert(u[i + k] == s[i + k]);
        }
    }
}

/// `line_ending`: an answer other than `Incomplete` stays the same when more input follows,
/// and a success ends within the input.
pub proof fn lemma_line_ending_stable(s: Seq<u8>, t: Seq<u8>, i: int)
    requires
        0 <= i <= s.len(),
    ensures
        ends_in(spec_line_ending(s, i), i, s.len() as int),
        settled(spec_line_ending(s, i)) ==> spec_line_ending(s + t, i) == spec_line_ending(s, i),
{
    lemma_tag_stable(s, t, i, kw("\n"));
    lemma_tag_stable(s, t, i, kw("\r\n"));
}

/// `u64_s`: an answer other than `Incomplete` stays the same when more input follows,
/// and a success ends within the input.
pub proof fn lemma_u64_s_stable(s: Seq<u8>, t: Seq<u8>, i: int)
    requires
        0 <= i <= s.len(),
    ensures
        ends_in(spec_u64_s(s, i), i, s.len() as int),
        settled(spec_u64_s(s, i)) ==> spec_u64_s(s + t, i) == spec_u64_s(s, i),
{
    lemma_take_while1_stable(s, t, i, ByteClass::Digit);
    let d = spec_take_while1(s, i, ByteClass::Digit);
    if d is Done {
        assert((s + t).subrange(i, d.end()) =~= s.subrange(i, d.end()));
    }
}

/// `i64_digit`: an answer other than `Incomplete` stays the same when more input follows,
/// and a success ends within the input.
pub proof fn lemma_i64_digit_stable(s: Seq<u8>, t: Seq<u8>, i: int)
    requires
        0 <= i <= s.len(),
    ensures
        ends_in(spec_i64_digit(s, i), i, s.len() as int),
        settled(spec_i64_digit(s, i)) ==> spec_i64_digit(s + t, i) == spec_i64_digit(s, i),
{
    if i < s.len() {
        assert((s + t)[i] == s[i]);
        let k = sign_end(s, i);
        lemma_take_while1_stable(s, t, k, ByteClass::Digit);
        let d = spec_take_while1(s, k, ByteClass::Digit);
        if d is Done {
            assert((s + t).subrange(k, d.end()) =~= s.subrange(k, d.end()));
        }
    }
}

/// `mantissa`: an answer other than `Incomplete` stays the same when more input follows,
/// and a success ends within the input.
pub proof fn lemma_mantissa_stable(s: Seq<u8>, t: Seq<u8>, p: int)
    requires
        0 <= p <= s.len(),
    ensures
        ends_in(spec_mantissa(s, p), p, s.len() as int),
        settled(spec_mantissa(s, p)) ==> spec_mantissa(s + t, p) == spec_mantissa(s, p),
{
    lemma_take_while1_stable(s, t, p, ByteClass::Digit);
    let d = spec_take_while1(s, p, ByteClass::Digit);
    if d is Done {
        assert((s + t)[d.end()] == s[d.end()]);
        lemma_take_while_stable(s, t, d.end() + 1, ByteClass::Digit);
    } else if p < s.len() {
        assert((s + t)[p] == s[p]);
        lemma_take_while1_stable(s, t, p + 1, ByteClass::Digit);
    }
}

/// `exponent`: an answer other than `Incomplete` stays the same when more input follows,
/// and a success ends within the input.
pub proof fn lemma_exponent_stable(s: Seq<u8>, t: Seq<u8>, r: int)
    requires
        0 <= r <= s.len(),
    ensures
        ends_in(spec_exponent(s, r), r, s.len() as int),
        settled(spec_exponent(s, r)) ==> spec_exponent(s + t, r) == spec_exponent(s, r),
{
    if r < s.len() {
        assert((s + t)[r] == s[r]);
        if r + 1 < s.len() {
            assert((s + t)[r + 1] == s[r + 1]);
            lemma_take_while1_stable(s, t, sign_end(s, r + 1), ByteClass::Digit);
        }
    }
}

/// `recognize_float`: an answer other than `Incomplete` stays the same when more input follows,
/// and a success ends within the input.
pub proof fn lemma_recognize_float_stable(s: Seq<u8>, t: Seq<u8>, i: int)
    requires
        0 <= i <= s.len(),
    ensures
        ends_in(spec_recognize_float(s, i), i, s.len() as int),
        settled(spec_recognize_float(s, i)) ==> spec_recognize_float(s + t, i)
            == spec_recognize_float(s, i),
{
    if i < s.len() {
        assert((s + t)[i] == s[i]);
        let p = sign_end(s, i);
        lemma_mantissa_stable(s, t, p);
        let m = spec_mantissa(s, p);
        if m is Done {
            lemma_exponent_stable(s, t, m.end());
        }
    }
}

/// `double`: an answer other than `Incomplete` stays the same when more input follows,
/// and a success ends within the input.
pub proof fn lemma_double_stable(s: Seq<u8>, t: Seq<u8>, i: int)
    requires
        0 <= i <= s.len(),
    ensures
        ends_in(spec_double(s, i), i, s.len() as int),
        settled(spec_double(s, i)) ==> spec_double(s + t, i) == spec_double(s, i),
{
    lemma_recognize_float_stable(s, t, i);
    let f = spec_recognize_float(s, i);
    if f is Done {
        assert((s + t).subrange(i, f.end()) =~= s.subrange(i, f.end()));
    }
}

/// `quoted`: an answer other than `Incomplete` stays the same when more input follows,
/// and a success ends within the input.
pub proof fn lemma_quoted_stable(s: Seq<u8>, t: Seq<u8>, i: int)
    requires
        0 <= i <= s.len(),
    ensures
        ends_in(spec_quoted(s, i), i, s.len() as int),
        settled(spec_quoted(s, i)) ==> spec_quoted(s + t, i) == spec_quoted(s, i),
{
    lemma_char_stable(s, t, i, '"' as u8);
    if spec_char(s, i, '"' as u8) is Done {
        lemma_take_while_stable(s, t, i + 1, ByteClass::NotQuote);
        let w = spec_take_while(s, i + 1, ByteClass::NotQuote);
        if w is Done {
            lemma_char_stable(s, t, w.end(), '"' as u8);
            assert((s + t).subrange(i + 1, w.end()) =~= s.subrange(i + 1, w.end()));
        }
    }
}

/// `text_till`: an answer other than `Incomplete` stays the same when more input follows,
/// and a success ends within the input.
pub proof fn lemma_text_till_stable(s: Seq<u8>, t: Seq<u8>, i: int, c: ByteClass)
    requires
        0 <= i <= s.len(),
    ensures
        ends_in(spec_text_till(s, i, c), i, s.len() as int),
        settled(spec_text_till(s, i, c)) ==> spec_text_till(s + t, i, c) == spec_text_till(
            s,
            i,
            c,
        ),
{
    lemma_take_while_stable(s, t, i, c);
    let w = spec_take_while(s, i, c);
    if w is Done {
        assert((s + t).subrange(i, w.end()) =~= s.subrange(i, w.end()));
    }
}

/// `c_ident`: an answer other than `Incomplete` stays the same when more input follows,
/// and a success ends within the input.
pub proof fn lemma_c_ident_stable(s: Seq<u8>, t: Seq<u8>, i: int)
    requires
        0 <= i <= s.len(),
    ensures
        ends_in(spec_c_ident(s, i), i, s.len() as int),
        settled(spec_c_ident(s, i)) ==> spec_c_ident(s + t, i) == spec_c_ident(s, i),
{
    lemma_take_while1_stable(s, t, i, ByteClass::IdentHead);
    let h = spec_take_while1(s, i, ByteClass::IdentHead);
    if h is Done {
        lemma_take_while_stable(s, t, h.end(), ByteClass::IdentTail);
        let w = spec_take_while(s, h.end(), ByteClass::IdentTail);
        if w is Done {
            assert((s + t).subrange(i, w.end()) =~= s.subrange(i, w.end()));
        }
    }
}

/// `little_endian`: an answer other than `Incomplete` stays the same when more input follows,
/// and a success ends within the input.
pub proof fn lemma_little_endian_stable(s: Seq<u8>, t: Seq<u8>, i: int)
    requires
        0 <= i <= s.len(),
    ensures
        ends_in(spec_little_endian(s, i), i, s.len() as int),
        settled(spec_little_endian(s, i)) ==> spec_little_endian(s + t, i) == spec_little_endian(s, i),
{
    lemma_char_stable(s, t, i, '1' as u8);
}

/// `big_endian`: an answer other than `Incomplete` stays the same when more input follows,
/// and a success ends within the input.
pub proof fn lemma_big_endian_stable(s: Seq<u8>, t: Seq<u8>, i: int)
    requires
        0 <= i <= s.len(),
    ensures
        ends_in(spec_big_endian(s, i), i, s.len() as int),
        settled(spec_big_endian(s, i)) ==> spec_big_endian(s + t, i) == spec_big_endian(s, i),
{
    lemma_char_stable(s, t, i, '0' as u8);
}

/// `signed`: an answer other than `Incomplete` stays the same when more input follows,
/// and a success ends within the input.
pub proof fn lemma_signed_stable(s: Seq<u8>, t: Seq<u8>, i: int)
    requires
        0 <= i <= s.len(),
    ensures
        ends_in(spec_signed(s, i), i, s.len() as int),
        settled(spec_signed(s, i)) ==> spec_signed(s + t, i) == spec_signed(s, i),
{
    lemma_char_stable(s, t, i, '-' as u8);
}

/// `unsigned`: an answer other than `Incomplete` stays the same when more input follows,
/// and a success ends within the input.
pub proof fn lemma_unsigned_stable(s: Seq<u8>, t: Seq<u8>, i: int)
    requires
        0 <= i <= s.len(),
    ensures
        ends_in(spec_unsigned(s, i), i, s.len() as int),
        settled(spec_unsigned(s, i)) ==> spec_unsigned(s + t, i) == spec_unsigned(s, i),
{
    lemma_char_stable(s, t, i, '+' as u8);
}

/// `endianess`: an answer other than `Incomplete` stays the same when more input follows,
/// and a success ends within the input.
pub proof fn lemma_endianess_stable(s: Seq<u8>, t: Seq<u8>, i: int)
    requires
        0 <= i <= s.len(),
    ensures
        ends_in(spec_endianess(s, i), i, s.len() as int),
        settled(spec_endianess(s, i)) ==> spec_endianess(s + t, i) == spec_endianess(s, i),
{
    lemma_little_endian_stable(s, t, i);
    lemma_big_endian_stable(s, t, i);
}

/// `value_type`: an answer other than `Incomplete` stays the same when more input follows,
/// and a success ends within the input.
pub proof fn lemma_value_type_stable(s: Seq<u8>, t: Seq<u8>, i: int)
    requires
        0 <= i <= s.len(),
    ensures
        ends_in(spec_value_type(s, i), i, s.len() as int),
        settled(spec_value_type(s, i)) ==> spec_value_type(s + t, i) == spec_value_type(s, i),
{
    lemma_signed_stable(s, t, i);
    lemma_unsigned_stable(s, t, i);
}

/// `message_id`: an answer other than `Incomplete` stays the same when more input follows,
/// and a success ends within the input.
pub proof fn lemma_message_id_stable(s: Seq<u8>, t: Seq<u8>, i: int)
    requires
        0 <= i <= s.len(),
    ensures
        ends_in(spec_message_id(s, i), i, s.len() as int),
        settled(spec_message_id(s, i)) ==> spec_message_id(s + t, i) == spec_message_id(s, i),
{
    lemma_u64_s_stable(s, t, i);
}

/// `signal_comment_id`: an answer other than `Incomplete` stays the same when more input follows,
/// and a success ends within the input.
pub proof fn lemma_signal_comment_id_stable(s: Seq<u8>, t: Seq<u8>, i: int)
    requires
        0 <= i <= s.len(),
    ensures
        ends_in(spec_signal_comment_id(s, i), i, s.len() as int),
        settled(spec_signal_comment_id(s, i)) ==> spec_signal_comment_id(s + t, i) == spec_signal_comment_id(s, i),
{
    lemma_u64_s_stable(s, t, i);
}

/// `multiplexer`: an answer other than `Incomplete` stays the same when more input follows,
/// and a success ends within the input.
pub proof fn lemma_multiplexer_stable(s: Seq<u8>, t: Seq<u8>, i: int)
    requires
        0 <= i <= s.len(),
    ensures
        ends_in(spec_multiplexer(s, i), i, s.len() as int),
        settled(spec_multiplexer(s, i)) ==> spec_multiplexer(s + t, i) == spec_multiplexer(s, i),
{
    lemma_char_stable(s, t, i, 'm' as u8);
    let x0 = spec_char(s, i, 'm' as u8);
    if x0 is Done {
        lemma_u64_s_stable(s, t, x0.end());
        let x1 = spec_u64_s(s, x0.end());
        if x1 is Done {
            lemma_ss_stable(s, t, x1.end());
        }
    }
}

/// `multiplexor`: an answer other than `Incomplete` stays the same when more input follows,
/// and a success ends within the input.
pub proof fn lemma_multiplexor_stable(s: Seq<u8>, t: Seq<u8>, i: int)
    requires
        0 <= i <= s.len(),
    ensures
        ends_in(spec_multiplexor(s, i), i, s.len() as int),
        settled(spec_multiplexor(s, i)) ==> spec_multiplexor(s + t, i) == spec_multiplexor(s, i),
{
    lemma_char_stable(s, t, i, 'M' as u8);
    let x0 = spec_char(s, i, 'M' as u8);
    if x0 is Done {
        lemma_ss_stable(s, t, x0.end());
    }
}

/// `plain`: an answer other than `Incomplete` stays the same when more input follows,
/// and a success ends within the input.
pub proof fn lemma_plain_stable(s: Seq<u8>, t: Seq<u8>, i: int)
    requires
        0 <= i <= s.len(),
    ensures
        ends_in(spec_plain(s, i), i, s.len() as int),
        settled(spec_plain(s, i)) ==> spec_plain(s + t, i) == spec_plain(s, i),
{
    lemma_ss_stable(s, t, i);
}

/// `signal_type`: an answer other than `Incomplete` stays the same when more input follows,
/// and a success ends within the input.
pub proof fn lemma_signal_type_stable(s: Seq<u8>, t: Seq<u8>, i: int)
    requires
        0 <= i <= s.len(),
    ensures
        ends_in(spec_signal_type(s, i), i, s.len() as int),
        settled(spec_signal_type(s, i)) ==> spec_signal_type(s + t, i) == spec_signal_type(s, i),
{
    lemma_multiplexer_stable(s, t, i);
    lemma_multiplexor_stable(s, t, i);
    lemma_plain_stable(s, t, i);
}

/// `more_idents`: an answer other than `Incomplete` stays the same when more input follows,
/// and a success ends within the input.
pub proof fn lemma_more_idents_stable(s: Seq<u8>, t: Seq<u8>, p: int, acc: Seq<Seq<char>>)
    requires
        0 <= p <= s.len(),
    ensures
        ends_in(spec_more_idents(s, p, acc), p, s.len() as int),
        settled(spec_more_idents(s, p, acc)) ==> spec_more_idents(s + t, p, acc) == spec_more_idents(s, p, acc),
    decreases s.len() - p,
{
    lemma_char_stable(s, t, p, ',' as u8);
    let sep = spec_char(s, p, ',' as u8);
    if sep is Done {
        lemma_c_ident_stable(s, t, sep.end());
        let e = spec_c_ident(s, sep.end());
        if e is Done && sep.end() > p && e.end() > sep.end() {
            lemma_more_idents_stable(s, t, e.end(), acc.push(e.value()));
        }
    }
}

/// `c_ident_vec`: an answer other than `Incomplete` stays the same when more input follows,
/// and a success ends within the input.
pub proof fn lemma_c_ident_vec_stable(s: Seq<u8>, t: Seq<u8>, i: int)
    requires
        0 <= i <= s.len(),
    ensures
        ends_in(spec_c_ident_vec(s, i), i, s.len() as int),
        settled(spec_c_ident_vec(s, i)) ==> spec_c_ident_vec(s + t, i) == spec_c_ident_vec(s, i),
{
    lemma_c_ident_stable(s, t, i);
    let first = spec_c_ident(s, i);
    if first is Done && first.end() != i {
        lemma_more_idents_stable(s, t, first.end(), seq![first.value()]);
    }
}

/// `signal_head`: an answer other than `Incomplete` stays the same when more input follows,
/// and a success ends within the input.
pub proof fn lemma_signal_head_stable(s: Seq<u8>, t: Seq<u8>, i: int)
    requires
        0 <= i <= s.len(),
    ensures
        ends_in(spec_signal_head(s, i), i, s.len() as int),
        settled(spec_signal_head(s, i)) ==> spec_signal_head(s + t, i) == spec_signal_head(s, i),
{
    lemma_take_while1_stable(s, t, i, ByteClass::Blank);
    let x0 = spec_take_while1(s, i, ByteClass::Blank);
    if x0 is Done {
        lemma_tag_stable(s, t, x0.end(), kw("SG_"));
        let x1 = spec_tag(s, x0.end(), kw("SG_"));
        if x1 is Done {
            lemma_ss_stable(s, t, x1.end());
            let x2 = spec_ss(s, x1.end());
            if x2 is Done {
                lemma_c_ident_stable(s, t, x2.end());
                let x3 = spec_c_ident(s, x2.end());
                if x3 is Done {
                    lemma_signal_type_stable(s, t, x3.end());
                    let x4 = spec_signal_type(s, x3.end());
                    if x4 is Done {
                        lemma_char_stable(s, t, x4.end(), ':' as u8);
                        let x5 = spec_char(s, x4.end(), ':' as u8);
                        if x5 is Done {
                            lemma_ss_stable(s, t, x5.end());
                        }
                    }
                }
            }
        }
    }
}

/// `signal_layout`: an answer other than `Incomplete` stays the same when more input follows,
/// and a success ends within the input.
pub proof fn lemma_signal_layout_stable(s: Seq<u8>, t: Seq<u8>, i: int)
    requires
        0 <= i <= s.len(),
    ensures
        ends_in(spec_signal_layout(s, i), i, s.len() as int),
        settled(spec_signal_layout(s, i)) ==> spec_signal_layout(s + t, i) == spec_signal_layout(s, i),
{
    lemma_u64_s_stable(s, t, i);
    let x0 = spec_u64_s(s, i);
    if x0 is Done {
        lemma_char_stable(s, t, x0.end(), '|' as u8);
        let x1 = spec_char(s, x0.end(), '|' as u8);
        if x1 is Done {
            lemma_u64_s_stable(s, t, x1.end());
            let x2 = spec_u64_s(s, x1.end());
            if x2 is Done {
                lemma_char_stable(s, t, x2.end(), '@' as u8);
                let x3 = spec_char(s, x2.end(), '@' as u8);
                if x3 is Done {
                    lemma_endianess_stable(s, t, x3.end());
                    let x4 = spec_endianess(s, x3.end());
                    if x4 is Done {
                        lemma_value_type_stable(s, t, x4.end());
                        let x5 = spec_value_type(s, x4.end());
                        if x5 is Done {
                            lemma_ss_stable(s, t, x5.end());
                        }
                    }
                }
            }
        }
    }
}

/// `signal_scaling`: an answer other than `Incomplete` stays the same when more input follows,
/// and a success ends within the input.
pub proof fn lemma_signal_scaling_stable(s: Seq<u8>, t: Seq<u8>, i: int)
    requires
        0 <= i <= s.len(),
    ensures
        ends_in(spec_signal_scaling(s, i), i, s.len() as int),
        settled(spec_signal_scaling(s, i)) ==> spec_signal_scaling(s + t, i) == spec_signal_scaling(s, i),
{
    lemma_char_stable(s, t, i, '(' as u8);
    let x0 = spec_char(s, i, '(' as u8);
    if x0 is Done {
        lemma_double_stable(s, t, x0.end());
        let x1 = spec_double(s, x0.end());
        if x1 is Done {
            lemma_char_stable(s, t, x1.end(), ',' as u8);
            let x2 = spec_char(s, x1.end(), ',' as u8);
            if x2 is Done {
                lemma_double_stable(s, t, x2.end());
                let x3 = spec_double(s, x2.end());
                if x3 is Done {
                    lemma_char_stable(s, t, x3.end(), ')' as u8);
                    let x4 = spec_char(s, x3.end(), ')' as u8);
                    if x4 is Done {
                        lemma_ss_stable(s, t, x4.end());
                    }
                }
            }
        }
    }
}

/// `signal_range`: an answer other than `Incomplete` stays the same when more input follows,
/// and a success ends within the input.
pub proof fn lemma_signal_range_stable(s: Seq<u8>, t: Seq<u8>, i: int)
    requires
        0 <= i <= s.len(),
    ensures
        ends_in(spec_signal_range(s, i), i, s.len() as int),
        settled(spec_signal_range(s, i)) ==> spec_signal_range(s + t, i) == spec_signal_range(s, i),
{
    lemma_char_stable(s, t, i, '[' as u8);
    let x0 = spec_char(s, i, '[' as u8);
    if x0 is Done {
        lemma_double_stable(s, t, x0.end());
        let x1 = spec_double(s, x0.end());
        if x1 is Done {
            lemma_char_stable(s, t, x1.end(), '|' as u8);
            let x2 = spec_char(s, x1.end(), '|' as u8);
            if x2 is Done {
                lemma_double_stable(s, t, x2.end());
                let x3 = spec_double(s, x2.end());
                if x3 is Done {
                    lemma_char_stable(s, t, x3.end(), ']' as u8);
                    let x4 = spec_char(s, x3.end(), ']' as u8);
                    if x4 is Done {
                        lemma_ss_stable(s, t, x4.end());
                    }
                }
            }
        }
    }
}

/// `signal_unit`: an answer other than `Incomplete` stays the same when more input follows,
/// and a success ends within the input.
pub proof fn lemma_signal_unit_stable(s: Seq<u8>, t: Seq<u8>, i: int)
    requires
        0 <= i <= s.len(),
    ensures
        ends_in(spec_signal_unit(s, i), i, s.len() as int),
        settled(spec_signal_unit(s, i)) ==> spec_signal_unit(s + t, i) == spec_signal_unit(s, i),
{
    lemma_quoted_stable(s, t, i);
    let x0 = spec_quoted(s, i);
    if x0 is Done {
        lemma_ss_stable(s, t, x0.end());
    }
}

/// `signal`: a signal line that parses, or does not match, does so whatever follows it.
pub proof fn lemma_signal_stable(s: Seq<u8>, t: Seq<u8>, i: int)
    requires
        0 <= i <= s.len(),
    ensures
        ends_in(spec_signal(s, i), i, s.len() as int),
        settled(spec_signal(s, i)) ==> spec_signal(s + t, i) == spec_signal(s, i),
{
    lemma_signal_head_stable(s, t, i);
    let x0 = spec_signal_head(s, i);
    if x0 is Done {
        lemma_signal_layout_stable(s, t, x0.end());
        let x1 = spec_signal_layout(s, x0.end());
        if x1 is Done {
            lemma_signal_scaling_stable(s, t, x1.end());
            let x2 = spec_signal_scaling(s, x1.end());
            if x2 is Done {
                lemma_signal_range_stable(s, t, x2.end());
                let x3 = spec_signal_range(s, x2.end());
                if x3 is Done {
                    lemma_signal_unit_stable(s, t, x3.end());
                    let x4 = spec_signal_unit(s, x3.end());
                    if x4 is Done {
                        lemma_c_ident_vec_stable(s, t, x4.end());
                    }
                }
            }
        }
    }
}

/// `more_signals`: an answer other than `Incomplete` stays the same when more input follows,
/// and a success ends within the input.
pub proof fn lemma_more_signals_stable(s: Seq<u8>, t: Seq<u8>, p: int, acc: Seq<SpecSignal>)
    requires
        0 <= p <= s.len(),
    ensures
        ends_in(spec_more_signals(s, p, acc), p, s.len() as int),
        settled(spec_more_signals(s, p, acc)) ==> spec_more_signals(s + t, p, acc) == spec_more_signals(s, p, acc),
    decreases s.len() - p,
{
    lemma_line_ending_stable(s, t, p);
    let sep = spec_line_ending(s, p);
    if sep is Done {
        lemma_signal_stable(s, t, sep.end());
        let e = spec_signal(s, sep.end());
        if e is Done && sep.end() > p && e.end() > sep.end() {
            lemma_more_signals_stable(s, t, e.end(), acc.push(e.value()));
        }
    }
}

/// `signal_list`: an answer other than `Incomplete` stays the same when more input follows,
/// and a success ends within the input.
pub proof fn lemma_signal_list_stable(s: Seq<u8>, t: Seq<u8>, i: int)
    requires
        0 <= i <= s.len(),
    ensures
        ends_in(spec_signal_list(s, i), i, s.len() as int),
        settled(spec_signal_list(s, i)) ==> spec_signal_list(s + t, i) == spec_signal_list(s, i),
{
    lemma_signal_stable(s, t, i);
    let first = spec_signal(s, i);
    if first is Done && first.end() != i {
        lemma_more_signals_stable(s, t, first.end(), seq![first.value()]);
    }
}

/// `message_header`: an answer other than `Incomplete` stays the same when more input follows,
/// and a success ends within the input.
pub proof fn lemma_message_header_stable(s: Seq<u8>, t: Seq<u8>, i: int)
    requires
        0 <= i <= s.len(),
    ensures
        ends_in(spec_message_header(s, i), i, s.len() as int),
        settled(spec_message_header(s, i)) ==> spec_message_header(s + t, i) == spec_message_header(s, i),
{
    lemma_tag_stable(s, t, i, kw("BO_"));
    let x0 = spec_tag(s, i, kw("BO_"));
    if x0 is Done {
        lemma_ss_stable(s, t, x0.end());
        let x1 = spec_ss(s, x0.end());
        if x1 is Done {
            lemma_message_id_stable(s, t, x1.end());
            let x2 = spec_message_id(s, x1.end());
            if x2 is Done {
                lemma_ss_stable(s, t, x2.end());
                let x3 = spec_ss(s, x2.end());
                if x3 is Done {
                    lemma_text_till_stable(s, t, x3.end(), ByteClass::NotColon);
                    let x4 = spec_text_till(s, x3.end(), ByteClass::NotColon);
                    if x4 is Done {
                        lemma_char_stable(s, t, x4.end(), ':' as u8);
                        let x5 = spec_char(s, x4.end(), ':' as u8);
                        if x5 is Done {
                            lemma_ss_stable(s, t, x5.end());
                            let x6 = spec_ss(s, x5.end());
                            if x6 is Done {
                                lemma_u64_s_stable(s, t, x6.end());
                                let x7 = spec_u64_s(s, x6.end());
                                if x7 is Done {
                                    lemma_ss_stable(s, t, x7.end());
                                    let x8 = spec_ss(s, x7.end());
                                    if x8 is Done {
                                        lemma_c_ident_stable(s, t, x8.end());
                                        let x9 = spec_c_ident(s, x8.end());
                                        if x9 is Done {
                                            lemma_line_ending_stable(s, t, x9.end());
                                        }
                                    }
                                }
                            }
                        }
                    }
                }
            }
        }
    }
}

/// `message_definition`: an answer other than `Incomplete` stays the same when more input follows,
/// and a success ends within the input.
pub proof fn lemma_message_definition_stable(s: Seq<u8>, t: Seq<u8>, i: int)
    requires
        0 <= i <= s.len(),
    ensures
        ends_in(spec_message_definition(s, i), i, s.len() as int),
        settled(spec_message_definition(s, i)) ==> spec_message_definition(s + t, i) == spec_message_definition(s, i),
{
    lemma_message_header_stable(s, t, i);
    let x0 = spec_message_header(s, i);
    if x0 is Done {
        lemma_signal_list_stable(s, t, x0.end());
    }
}

/// `attribute_value_uint64`: an answer other than `Incomplete` stays the same when more input follows,
/// and a success ends within the input.
pub proof fn lemma_attribute_value_uint64_stable(s: Seq<u8>, t: Seq<u8>, i: int)
    requires
        0 <= i <= s.len(),
    ensures
        ends_in(spec_attribute_value_uint64(s, i), i, s.len() as int),
        settled(spec_attribute_value_uint64(s, i)) ==> spec_attribute_value_uint64(s + t, i) == spec_attribute_value_uint64(s, i),
{
    lemma_u64_s_stable(s, t, i);
}

/// `attribute_value_int64`: an answer other than `Incomplete` stays the same when more input follows,
/// and a success ends within the input.
pub proof fn lemma_attribute_value_int64_stable(s: Seq<u8>, t: Seq<u8>, i: int)
    requires
        0 <= i <= s.len(),
    ensures
        ends_in(spec_attribute_value_int64(s, i), i, s.len() as int),
        settled(spec_attribute_value_int64(s, i)) ==> spec_attribute_value_int64(s + t, i) == spec_attribute_value_int64(s, i),
{
    lemma_i64_digit_stable(s, t, i);
}

/// `attribute_value_f64`: an answer other than `Incomplete` stays the same when more input follows,
/// and a success ends within the input.
pub proof fn lemma_attribute_value_f64_stable(s: Seq<u8>, t: Seq<u8>, i: int)
    requires
        0 <= i <= s.len(),
    ensures
        ends_in(spec_attribute_value_f64(s, i), i, s.len() as int),
        settled(spec_attribute_value_f64(s, i)) ==> spec_attribute_value_f64(s + t, i) == spec_attribute_value_f64(s, i),
{
    lemma_double_stable(s, t, i);
}

/// `attribute_value_charstr`: an answer other than `Incomplete` stays the same when more input follows,
/// and a success ends within the input.
pub proof fn lemma_attribute_value_charstr_stable(s: Seq<u8>, t: Seq<u8>, i: int)
    requires
        0 <= i <= s.len(),
    ensures
        ends_in(spec_attribute_value_charstr(s, i), i, s.len() as int),
        settled(spec_attribute_value_charstr(s, i)) ==> spec_attribute_value_charstr(s + t, i) == spec_attribute_value_charstr(s, i),
{
    lemma_quoted_stable(s, t, i);
}

/// `attribute_value`: an answer other than `Incomplete` stays the same when more input follows,
/// and a success ends within the input.
pub proof fn lemma_attribute_value_stable(s: Seq<u8>, t: Seq<u8>, i: int)
    requires
        0 <= i <= s.len(),
    ensures
        ends_in(spec_attribute_value(s, i), i, s.len() as int),
        settled(spec_attribute_value(s, i)) ==> spec_attribute_value(s + t, i) == spec_attribute_value(s, i),
{
    lemma_attribute_value_uint64_stable(s, t, i);
    lemma_attribute_value_int64_stable(s, t, i);
    lemma_attribute_value_f64_stable(s, t, i);
    lemma_attribute_value_charstr_stable(s, t, i);
}

/// `network_node_attribute_value`: an answer other than `Incomplete` stays the same when more input follows,
/// and a success ends within the input.
pub proof fn lemma_network_node_attribute_value_stable(s: Seq<u8>, t: Seq<u8>, i: int)
    requires
        0 <= i <= s.len(),
    ensures
        ends_in(spec_network_node_attribute_value(s, i), i, s.len() as int),
        settled(spec_network_node_attribute_value(s, i)) ==> spec_network_node_attribute_value(s + t, i) == spec_network_node_attribute_value(s, i),
{
    lemma_tag_stable(s, t, i, kw("BU_"));
    let x0 = spec_tag(s, i, kw("BU_"));
    if x0 is Done {
        lemma_ss_stable(s, t, x0.end());
        let x1 = spec_ss(s, x0.end());
        if x1 is Done {
            lemma_c_ident_stable(s, t, x1.end());
            let x2 = spec_c_ident(s, x1.end());
            if x2 is Done {
                lemma_ss_stable(s, t, x2.end());
                let x3 = spec_ss(s, x2.end());
                if x3 is Done {
                    lemma_attribute_value_stable(s, t, x3.end());
                }
            }
        }
    }
}

/// `message_definition_attribute_value`: an answer other than `Incomplete` stays the same when more input follows,
/// and a success ends within the input.
pub proof fn lemma_message_definition_attribute_value_stable(s: Seq<u8>, t: Seq<u8>, i: int)
    requires
        0 <= i <= s.len(),
    ensures
        ends_in(spec_message_definition_attribute_value(s, i), i, s.len() as int),
        settled(spec_message_definition_attribute_value(s, i)) ==> spec_message_definition_attribute_value(s + t, i) == spec_message_definition_attribute_value(s, i),
{
    lemma_tag_stable(s, t, i, kw("BO_"));
    let x0 = spec_tag(s, i, kw("BO_"));
    if x0 is Done {
        lemma_ss_stable(s, t, x0.end());
        let x1 = spec_ss(s, x0.end());
        if x1 is Done {
            lemma_message_id_stable(s, t, x1.end());
            let x2 = spec_message_id(s, x1.end());
            if x2 is Done {
                lemma_ss_stable(s, t, x2.end());
                let x3 = spec_ss(s, x2.end());
                if x3 is Done {
                    lemma_attribute_value_stable(s, t, x3.end());
                }
            }
        }
    }
}

/// `signal_attribute_value`: an answer other than `Incomplete` stays the same when more input follows,
/// and a success ends within the input.
pub proof fn lemma_signal_attribute_value_stable(s: Seq<u8>, t: Seq<u8>, i: int)
    requires
        0 <= i <= s.len(),
    ensures
        ends_in(spec_signal_attribute_value(s, i), i, s.len() as int),
        settled(spec_signal_attribute_value(s, i)) ==> spec_signal_attribute_value(s + t, i) == spec_signal_attribute_value(s, i),
{
    lemma_tag_stable(s, t, i, kw("SG_"));
    let x0 = spec_tag(s, i, kw("SG_"));
    if x0 is Done {
        lemma_ss_stable(s, t, x0.end());
        let x1 = spec_ss(s, x0.end());
        if x1 is Done {
            lemma_message_id_stable(s, t, x1.end());
            let x2 = spec_message_id(s, x1.end());
            if x2 is Done {
                lemma_ss_stable(s, t, x2.end());
                let x3 = spec_ss(s, x2.end());
                if x3 is Done {
                    lemma_c_ident_stable(s, t, x3.end());
                    let x4 = spec_c_ident(s, x3.end());
                    if x4 is Done {
                        lemma_ss_stable(s, t, x4.end());
                        let x5 = spec_ss(s, x4.end());
                        if x5 is Done {
                            lemma_attribute_value_stable(s, t, x5.end());
                        }
                    }
                }
            }
        }
    }
}

/// `env_variable_attribute_value`: an answer other than `Incomplete` stays the same when more input follows,
/// and a success ends within the input.
pub proof fn lemma_env_variable_attribute_value_stable(s: Seq<u8>, t: Seq<u8>, i: int)
    requires
        0 <= i <= s.len(),
    ensures
        ends_in(spec_env_variable_attribute_value(s, i), i, s.len() as int),
        settled(spec_env_variable_attribute_value(s, i)) ==> spec_env_variable_attribute_value(s + t, i) == spec_env_variable_attribute_value(s, i),
{
    lemma_tag_stable(s, t, i, kw("EV_"));
    let x0 = spec_tag(s, i, kw("EV_"));
    if x0 is Done {
        lemma_ss_stable(s, t, x0.end());
        let x1 = spec_ss(s, x0.end());
        if x1 is Done {
            lemma_c_ident_stable(s, t, x1.end());
            let x2 = spec_c_ident(s, x1.end());
            if x2 is Done {
                lemma_ss_stable(s, t, x2.end());
                let x3 = spec_ss(s, x2.end());
                if x3 is Done {
                    lemma_attribute_value_stable(s, t, x3.end());
                }
            }
        }
    }
}

/// `raw_attribute_value`: an answer other than `Incomplete` stays the same when more input follows,
/// and a success ends within the input.
pub proof fn lemma_raw_attribute_value_stable(s: Seq<u8>, t: Seq<u8>, i: int)
    requires
        0 <= i <= s.len(),
    ensures
        ends_in(spec_raw_attribute_value(s, i), i, s.len() as int),
        settled(spec_raw_attribute_value(s, i)) ==> spec_raw_attribute_value(s + t, i) == spec_raw_attribute_value(s, i),
{
    lemma_attribute_value_stable(s, t, i);
}

/// `object_attribute_value`: an answer other than `Incomplete` stays the same when more input follows,
/// and a success ends within the input.
pub proof fn lemma_object_attribute_value_stable(s: Seq<u8>, t: Seq<u8>, i: int)
    requires
        0 <= i <= s.len(),
    ensures
        ends_in(spec_object_attribute_value(s, i), i, s.len() as int),
        settled(spec_object_attribute_value(s, i)) ==> spec_object_attribute_value(s + t, i) == spec_object_attribute_value(s, i),
{
    lemma_network_node_attribute_value_stable(s, t, i);
    lemma_message_definition_attribute_value_stable(s, t, i);
    lemma_signal_attribute_value_stable(s, t, i);
    lemma_env_variable_attribute_value_stable(s, t, i);
    lemma_raw_attribute_value_stable(s, t, i);
}

/// `attribute_value_for_object`: an answer other than `Incomplete` stays the same when more input follows,
/// and a success ends within the input.
pub proof fn lemma_attribute_value_for_object_stable(s: Seq<u8>, t: Seq<u8>, i: int)
    requires
        0 <= i <= s.len(),
    ensures
        ends_in(spec_attribute_value_for_object(s, i), i, s.len() as int),
        settled(spec_attribute_value_for_object(s, i)) ==> spec_attribute_value_for_object(s + t, i) == spec_attribute_value_for_object(s, i),
{
    lemma_tag_stable(s, t, i, kw("BA_"));
    let x0 = spec_tag(s, i, kw("BA_"));
    if x0 is Done {
        lemma_ss_stable(s, t, x0.end());
        let x1 = spec_ss(s, x0.end());
        if x1 is Done {
            lemma_quoted_stable(s, t, x1.end());
            let x2 = spec_quoted(s, x1.end());
            if x2 is Done {
                lemma_ss_stable(s, t, x2.end());
                let x3 = spec_ss(s, x2.end());
                if x3 is Done {
                    lemma_object_attribute_value_stable(s, t, x3.end());
                    let x4 = spec_object_attribute_value(s, x3.end());
                    if x4 is Done {
                        lemma_char_stable(s, t, x4.end(), ';' as u8);
                    }
                }
            }
        }
    }
}

/// `attribute_default`: an answer other than `Incomplete` stays the same when more input follows,
/// and a success ends within the input.
pub proof fn lemma_attribute_default_stable(s: Seq<u8>, t: Seq<u8>, i: int)
    requires
        0 <= i <= s.len(),
    ensures
        ends_in(spec_attribute_default(s, i), i, s.len() as int),
        settled(spec_attribute_default(s, i)) ==> spec_attribute_default(s + t, i) == spec_attribute_default(s, i),
{
    lemma_tag_stable(s, t, i, kw("BA_DEF_DEF_"));
    let x0 = spec_tag(s, i, kw("BA_DEF_DEF_"));
    if x0 is Done {
        lemma_ss_stable(s, t, x0.end());
        let x1 = spec_ss(s, x0.end());
        if x1 is Done {
            lemma_quoted_stable(s, t, x1.end());
            let x2 = spec_quoted(s, x1.end());
            if x2 is Done {
                lemma_ss_stable(s, t, x2.end());
                let x3 = spec_ss(s, x2.end());
                if x3 is Done {
                    lemma_attribute_value_stable(s, t, x3.end());
                    let x4 = spec_attribute_value(s, x3.end());
                    if x4 is Done {
                        lemma_char_stable(s, t, x4.end(), ';' as u8);
                    }
                }
            }
        }
    }
}

/// `bu_def`: an answer other than `Incomplete` stays the same when more input follows,
/// and a success ends within the input.
pub proof fn lemma_bu_def_stable(s: Seq<u8>, t: Seq<u8>, i: int)
    requires
        0 <= i <= s.len(),
    ensures
        ends_in(spec_bu_def(s, i), i, s.len() as int),
        settled(spec_bu_def(s, i)) ==> spec_bu_def(s + t, i) == spec_bu_def(s, i),
{
    lemma_tag_stable(s, t, i, kw("BU_"));
    let x0 = spec_tag(s, i, kw("BU_"));
    if x0 is Done {
        lemma_ss_stable(s, t, x0.end());
        let x1 = spec_ss(s, x0.end());
        if x1 is Done {
            lemma_text_till_stable(s, t, x1.end(), ByteClass::NotSemicolon);
        }
    }
}

/// `bo_def`: an answer other than `Incomplete` stays the same when more input follows,
/// and a success ends within the input.
pub proof fn lemma_bo_def_stable(s: Seq<u8>, t: Seq<u8>, i: int)
    requires
        0 <= i <= s.len(),
    ensures
        ends_in(spec_bo_def(s, i), i, s.len() as int),
        settled(spec_bo_def(s, i)) ==> spec_bo_def(s + t, i) == spec_bo_def(s, i),
{
    lemma_tag_stable(s, t, i, kw("BO_"));
    let x0 = spec_tag(s, i, kw("BO_"));
    if x0 is Done {
        lemma_ss_stable(s, t, x0.end());
        let x1 = spec_ss(s, x0.end());
        if x1 is Done {
            lemma_text_till_stable(s, t, x1.end(), ByteClass::NotSemicolon);
        }
    }
}

/// `attr_def_body`: an answer other than `Incomplete` stays the same when more input follows,
/// and a success ends within the input.
pub proof fn lemma_attr_def_body_stable(s: Seq<u8>, t: Seq<u8>, i: int)
    requires
        0 <= i <= s.len(),
    ensures
        ends_in(spec_attr_def_body(s, i), i, s.len() as int),
        settled(spec_attr_def_body(s, i)) ==> spec_attr_def_body(s + t, i) == spec_attr_def_body(s, i),
{
    lemma_bu_def_stable(s, t, i);
    lemma_bo_def_stable(s, t, i);
}

/// `custom_attr_def`: an answer other than `Incomplete` stays the same when more input follows,
/// and a success ends within the input.
pub proof fn lemma_custom_attr_def_stable(s: Seq<u8>, t: Seq<u8>, i: int)
    requires
        0 <= i <= s.len(),
    ensures
        ends_in(spec_custom_attr_def(s, i), i, s.len() as int),
        settled(spec_custom_attr_def(s, i)) ==> spec_custom_attr_def(s + t, i) == spec_custom_attr_def(s, i),
{
    lemma_tag_stable(s, t, i, kw("BA_DEF_"));
    let x0 = spec_tag(s, i, kw("BA_DEF_"));
    if x0 is Done {
        lemma_ss_stable(s, t, x0.end());
        let x1 = spec_ss(s, x0.end());
        if x1 is Done {
            lemma_attr_def_body_stable(s, t, x1.end());
        }
    }
}

/// `signal_comment`: an answer other than `Incomplete` stays the same when more input follows,
/// and a success ends within the input.
pub proof fn lemma_signal_comment_stable(s: Seq<u8>, t: Seq<u8>, i: int)
    requires
        0 <= i <= s.len(),
    ensures
        ends_in(spec_signal_comment(s, i), i, s.len() as int),
        settled(spec_signal_comment(s, i)) ==> spec_signal_comment(s + t, i) == spec_signal_comment(s, i),
{
    lemma_tag_stable(s, t, i, kw("SG_"));
    let x0 = spec_tag(s, i, kw("SG_"));
    if x0 is Done {
        lemma_ss_stable(s, t, x0.end());
        let x1 = spec_ss(s, x0.end());
        if x1 is Done {
            lemma_signal_comment_id_stable(s, t, x1.end());
            let x2 = spec_signal_comment_id(s, x1.end());
            if x2 is Done {
                lemma_ss_stable(s, t, x2.end());
                let x3 = spec_ss(s, x2.end());
                if x3 is Done {
                    lemma_c_ident_stable(s, t, x3.end());
                    let x4 = spec_c_ident(s, x3.end());
                    if x4 is Done {
                        lemma_ss_stable(s, t, x4.end());
                        let x5 = spec_ss(s, x4.end());
                        if x5 is Done {
                            lemma_quoted_stable(s, t, x5.end());
                        }
                    }
                }
            }
        }
    }
}

/// `message_definition_comment`: an answer other than `Incomplete` stays the same when more input follows,
/// and a success ends within the input.
pub proof fn lemma_message_definition_comment_stable(s: Seq<u8>, t: Seq<u8>, i: int)
    requires
        0 <= i <= s.len(),
    ensures
        ends_in(spec_message_definition_comment(s, i), i, s.len() as int),
        settled(spec_message_definition_comment(s, i)) ==> spec_message_definition_comment(s + t, i) == spec_message_definition_comment(s, i),
{
    lemma_tag_stable(s, t, i, kw("BO_"));
    let x0 = spec_tag(s, i, kw("BO_"));
    if x0 is Done {
        lemma_ss_stable(s, t, x0.end());
        let x1 = spec_ss(s, x0.end());
        if x1 is Done {
            lemma_message_id_stable(s, t, x1.end());
            let x2 = spec_message_id(s, x1.end());
            if x2 is Done {
                lemma_ss_stable(s, t, x2.end());
                let x3 = spec_ss(s, x2.end());
                if x3 is Done {
                    lemma_text_till_stable(s, t, x3.end(), ByteClass::NotSpace);
                    let x4 = spec_text_till(s, x3.end(), ByteClass::NotSpace);
                    if x4 is Done {
                        lemma_ss_stable(s, t, x4.end());
                        let x5 = spec_ss(s, x4.end());
                        if x5 is Done {
                            lemma_quoted_stable(s, t, x5.end());
                        }
                    }
                }
            }
        }
    }
}

/// `comment_body`: an answer other than `Incomplete` stays the same when more input follows,
/// and a success ends within the input.
pub proof fn lemma_comment_body_stable(s: Seq<u8>, t: Seq<u8>, i: int)
    requires
        0 <= i <= s.len(),
    ensures
        ends_in(spec_comment_body(s, i), i, s.len() as int),
        settled(spec_comment_body(s, i)) ==> spec_comment_body(s + t, i) == spec_comment_body(s, i),
{
    lemma_signal_comment_stable(s, t, i);
    lemma_message_definition_comment_stable(s, t, i);
}

/// `comment`: an answer other than `Incomplete` stays the same when more input follows,
/// and a success ends within the input.
pub proof fn lemma_comment_stable(s: Seq<u8>, t: Seq<u8>, i: int)
    requires
        0 <= i <= s.len(),
    ensures
        ends_in(spec_comment(s, i), i, s.len() as int),
        settled(spec_comment(s, i)) ==> spec_comment(s + t, i) == spec_comment(s, i),
{
    lemma_tag_stable(s, t, i, kw("CM_"));
    let x0 = spec_tag(s, i, kw("CM_"));
    if x0 is Done {
        lemma_ss_stable(s, t, x0.end());
        let x1 = spec_ss(s, x0.end());
        if x1 is Done {
            lemma_comment_body_stable(s, t, x1.end());
            let x2 = spec_comment_body(s, x1.end());
            if x2 is Done {
                lemma_char_stable(s, t, x2.end(), ';' as u8);
            }
        }
    }
}

/// `value_description`: an answer other than `Incomplete` stays the same when more input follows,
/// and a success ends within the input.
pub proof fn lemma_value_description_stable(s: Seq<u8>, t: Seq<u8>, i: int)
    requires
        0 <= i <= s.len(),
    ensures
        ends_in(spec_value_description(s, i), i, s.len() as int),
        settled(spec_value_description(s, i)) ==> spec_value_description(s + t, i) == spec_value_description(s, i),
{
    lemma_double_stable(s, t, i);
    let x0 = spec_double(s, i);
    if x0 is Done {
        lemma_ss_stable(s, t, x0.end());
        let x1 = spec_ss(s, x0.end());
        if x1 is Done {
            lemma_quoted_stable(s, t, x1.end());
        }
    }
}

/// `description_item`: an answer other than `Incomplete` stays the same when more input follows,
/// and a success ends within the input.
pub proof fn lemma_description_item_stable(s: Seq<u8>, t: Seq<u8>, i: int)
    requires
        0 <= i <= s.len(),
    ensures
        ends_in(spec_description_item(s, i), i, s.len() as int),
        settled(spec_description_item(s, i)) ==> spec_description_item(s + t, i) == spec_description_item(s, i),
{
    lemma_ss_stable(s, t, i);
    let x0 = spec_ss(s, i);
    if x0 is Done {
        lemma_value_description_stable(s, t, x0.end());
    }
}

/// `description_end`: an answer other than `Incomplete` stays the same when more input follows,
/// and a success ends within the input.
pub proof fn lemma_description_end_stable(s: Seq<u8>, t: Seq<u8>, i: int)
    requires
        0 <= i <= s.len(),
    ensures
        ends_in(spec_description_end(s, i), i, s.len() as int),
        settled(spec_description_end(s, i)) ==> spec_description_end(s + t, i) == spec_description_end(s, i),
{
    lemma_ss_stable(s, t, i);
    let x0 = spec_ss(s, i);
    if x0 is Done {
        lemma_char_stable(s, t, x0.end(), ';' as u8);
    }
}

/// `value_description_for_signal`: an answer other than `Incomplete` stays the same when more input follows,
/// and a success ends within the input.
pub proof fn lemma_value_description_for_signal_stable(s: Seq<u8>, t: Seq<u8>, i: int)
    requires
        0 <= i <= s.len(),
    ensures
        ends_in(spec_value_description_for_signal(s, i), i, s.len() as int),
        settled(spec_value_description_for_signal(s, i)) ==> spec_value_description_for_signal(s + t, i) == spec_value_description_for_signal(s, i),
{
    lemma_tag_stable(s, t, i, kw("VAL_"));
    let x0 = spec_tag(s, i, kw("VAL_"));
    if x0 is Done {
        lemma_ss_stable(s, t, x0.end());
        let x1 = spec_ss(s, x0.end());
        if x1 is Done {
            lemma_message_id_stable(s, t, x1.end());
            let x2 = spec_message_id(s, x1.end());
            if x2 is Done {
                lemma_ss_stable(s, t, x2.end());
                let x3 = spec_ss(s, x2.end());
                if x3 is Done {
                    lemma_c_ident_stable(s, t, x3.end());
                    let x4 = spec_c_ident(s, x3.end());
                    if x4 is Done {
                        lemma_more_descriptions_stable(s, t, x4.end(), Seq::empty());
                    }
                }
            }
        }
    }
}

/// `value_description_for_env_var`: an answer other than `Incomplete` stays the same when more input follows,
/// and a success ends within the input.
pub proof fn lemma_value_description_for_env_var_stable(s: Seq<u8>, t: Seq<u8>, i: int)
    requires
        0 <= i <= s.len(),
    ensures
        ends_in(spec_value_description_for_env_var(s, i), i, s.len() as int),
        settled(spec_value_description_for_env_var(s, i)) ==> spec_value_description_for_env_var(s + t, i) == spec_value_description_for_env_var(s, i),
{
    lemma_tag_stable(s, t, i, kw("VAL_"));
    let x0 = spec_tag(s, i, kw("VAL_"));
    if x0 is Done {
        lemma_ss_stable(s, t, x0.end());
        let x1 = spec_ss(s, x0.end());
        if x1 is Done {
            lemma_c_ident_stable(s, t, x1.end());
            let x2 = spec_c_ident(s, x1.end());
            if x2 is Done {
                lemma_more_descriptions_stable(s, t, x2.end(), Seq::empty());
            }
        }
    }
}

/// `value_descriptions`: an answer other than `Incomplete` stays the same when more input follows,
/// and a success ends within the input.
pub proof fn lemma_value_descriptions_stable(s: Seq<u8>, t: Seq<u8>, i: int)
    requires
        0 <= i <= s.len(),
    ensures
        ends_in(spec_value_descriptions(s, i), i, s.len() as int),
        settled(spec_value_descriptions(s, i)) ==> spec_value_descriptions(s + t, i) == spec_value_descriptions(s, i),
{
    lemma_value_description_for_signal_stable(s, t, i);
    lemma_value_description_for_env_var_stable(s, t, i);
}

/// `env_float`: an answer other than `Incomplete` stays the same when more input follows,
/// and a success ends within the input.
pub proof fn lemma_env_float_stable(s: Seq<u8>, t: Seq<u8>, i: int)
    requires
        0 <= i <= s.len(),
    ensures
        ends_in(spec_env_float(s, i), i, s.len() as int),
        settled(spec_env_float(s, i)) ==> spec_env_float(s + t, i) == spec_env_float(s, i),
{
    lemma_char_stable(s, t, i, '0' as u8);
}

/// `env_int`: an answer other than `Incomplete` stays the same when more input follows,
/// and a success ends within the input.
pub proof fn lemma_env_int_stable(s: Seq<u8>, t: Seq<u8>, i: int)
    requires
        0 <= i <= s.len(),
    ensures
        ends_in(spec_env_int(s, i), i, s.len() as int),
        settled(spec_env_int(s, i)) ==> spec_env_int(s + t, i) == spec_env_int(s, i),
{
    lemma_char_stable(s, t, i, '1' as u8);
}

/// `env_data`: an answer other than `Incomplete` stays the same when more input follows,
/// and a success ends within the input.
pub proof fn lemma_env_data_stable(s: Seq<u8>, t: Seq<u8>, i: int)
    requires
        0 <= i <= s.len(),
    ensures
        ends_in(spec_env_data(s, i), i, s.len() as int),
        settled(spec_env_data(s, i)) ==> spec_env_data(s + t, i) == spec_env_data(s, i),
{
    lemma_char_stable(s, t, i, '2' as u8);
}

/// `env_var_type`: an answer other than `Incomplete` stays the same when more input follows,
/// and a success ends within the input.
pub proof fn lemma_env_var_type_stable(s: Seq<u8>, t: Seq<u8>, i: int)
    requires
        0 <= i <= s.len(),
    ensures
        ends_in(spec_env_var_type(s, i), i, s.len() as int),
        settled(spec_env_var_type(s, i)) ==> spec_env_var_type(s + t, i) == spec_env_var_type(s, i),
{
    lemma_env_float_stable(s, t, i);
    lemma_env_int_stable(s, t, i);
    lemma_env_data_stable(s, t, i);
}

/// `dummy_node_vector_0`: an answer other than `Incomplete` stays the same when more input follows,
/// and a success ends within the input.
pub proof fn lemma_dummy_node_vector_0_stable(s: Seq<u8>, t: Seq<u8>, i: int)
    requires
        0 <= i <= s.len(),
    ensures
        ends_in(spec_dummy_node_vector_0(s, i), i, s.len() as int),
        settled(spec_dummy_node_vector_0(s, i)) ==> spec_dummy_node_vector_0(s + t, i) == spec_dummy_node_vector_0(s, i),
{
    lemma_char_stable(s, t, i, '0' as u8);
}

/// `dummy_node_vector_1`: an answer other than `Incomplete` stays the same when more input follows,
/// and a success ends within the input.
pub proof fn lemma_dummy_node_vector_1_stable(s: Seq<u8>, t: Seq<u8>, i: int)
    requires
        0 <= i <= s.len(),
    ensures
        ends_in(spec_dummy_node_vector_1(s, i), i, s.len() as int),
        settled(spec_dummy_node_vector_1(s, i)) ==> spec_dummy_node_vector_1(s + t, i) == spec_dummy_node_vector_1(s, i),
{
    lemma_char_stable(s, t, i, '1' as u8);
}

/// `dummy_node_vector_2`: an answer other than `Incomplete` stays the same when more input follows,
/// and a success ends within the input.
pub proof fn lemma_dummy_node_vector_2_stable(s: Seq<u8>, t: Seq<u8>, i: int)
    requires
        0 <= i <= s.len(),
    ensures
        ends_in(spec_dummy_node_vector_2(s, i), i, s.len() as int),
        settled(spec_dummy_node_vector_2(s, i)) ==> spec_dummy_node_vector_2(s + t, i) == spec_dummy_node_vector_2(s, i),
{
    lemma_char_stable(s, t, i, '2' as u8);
}

/// `dummy_node_vector_3`: an answer other than `Incomplete` stays the same when more input follows,
/// and a success ends within the input.
pub proof fn lemma_dummy_node_vector_3_stable(s: Seq<u8>, t: Seq<u8>, i: int)
    requires
        0 <= i <= s.len(),
    ensures
        ends_in(spec_dummy_node_vector_3(s, i), i, s.len() as int),
        settled(spec_dummy_node_vector_3(s, i)) ==> spec_dummy_node_vector_3(s + t, i) == spec_dummy_node_vector_3(s, i),
{
    lemma_char_stable(s, t, i, '3' as u8);
}

/// `access_kind`: an answer other than `Incomplete` stays the same when more input follows,
/// and a success ends within the input.
pub proof fn lemma_access_kind_stable(s: Seq<u8>, t: Seq<u8>, i: int)
    requires
        0 <= i <= s.len(),
    ensures
        ends_in(spec_access_kind(s, i), i, s.len() as int),
        settled(spec_access_kind(s, i)) ==> spec_access_kind(s + t, i) == spec_access_kind(s, i),
{
    lemma_dummy_node_vector_0_stable(s, t, i);
    lemma_dummy_node_vector_1_stable(s, t, i);
    lemma_dummy_node_vector_2_stable(s, t, i);
    lemma_dummy_node_vector_3_stable(s, t, i);
}

/// `access_type`: an answer other than `Incomplete` stays the same when more input follows,
/// and a success ends within the input.
pub proof fn lemma_access_type_stable(s: Seq<u8>, t: Seq<u8>, i: int)
    requires
        0 <= i <= s.len(),
    ensures
        ends_in(spec_access_type(s, i), i, s.len() as int),
        settled(spec_access_type(s, i)) ==> spec_access_type(s + t, i) == spec_access_type(s, i),
{
    lemma_tag_stable(s, t, i, kw("DUMMY_NODE_VECTOR"));
    let x0 = spec_tag(s, i, kw("DUMMY_NODE_VECTOR"));
    if x0 is Done {
        lemma_access_kind_stable(s, t, x0.end());
    }
}

/// `access_node_vector_xxx`: an answer other than `Incomplete` stays the same when more input follows,
/// and a success ends within the input.
pub proof fn lemma_access_node_vector_xxx_stable(s: Seq<u8>, t: Seq<u8>, i: int)
    requires
        0 <= i <= s.len(),
    ensures
        ends_in(spec_access_node_vector_xxx(s, i), i, s.len() as int),
        settled(spec_access_node_vector_xxx(s, i)) ==> spec_access_node_vector_xxx(s + t, i) == spec_access_node_vector_xxx(s, i),
{
    lemma_tag_stable(s, t, i, kw("VECTOR_XXX"));
}

/// `access_node_name`: an answer other than `Incomplete` stays the same when more input follows,
/// and a success ends within the input.
pub proof fn lemma_access_node_name_stable(s: Seq<u8>, t: Seq<u8>, i: int)
    requires
        0 <= i <= s.len(),
    ensures
        ends_in(spec_access_node_name(s, i), i, s.len() as int),
        settled(spec_access_node_name(s, i)) ==> spec_access_node_name(s + t, i) == spec_access_node_name(s, i),
{
    lemma_c_ident_stable(s, t, i);
}

/// `access_node`: an answer other than `Incomplete` stays the same when more input follows,
/// and a success ends within the input.
pub proof fn lemma_access_node_stable(s: Seq<u8>, t: Seq<u8>, i: int)
    requires
        0 <= i <= s.len(),
    ensures
        ends_in(spec_access_node(s, i), i, s.len() as int),
        settled(spec_access_node(s, i)) ==> spec_access_node(s + t, i) == spec_access_node(s, i),
{
    lemma_access_node_vector_xxx_stable(s, t, i);
    lemma_access_node_name_stable(s, t, i);
}

/// `more_access_nodes`: an answer other than `Incomplete` stays the same when more input follows,
/// and a success ends within the input.
pub proof fn lemma_more_access_nodes_stable(s: Seq<u8>, t: Seq<u8>, p: int, acc: Seq<SpecAccessNode>)
    requires
        0 <= p <= s.len(),
    ensures
        ends_in(spec_more_access_nodes(s, p, acc), p, s.len() as int),
        settled(spec_more_access_nodes(s, p, acc)) ==> spec_more_access_nodes(s + t, p, acc) == spec_more_access_nodes(s, p, acc),
    decreases s.len() - p,
{
    lemma_char_stable(s, t, p, ',' as u8);
    let sep = spec_char(s, p, ',' as u8);
    if sep is Done {
        lemma_access_node_stable(s, t, sep.end());
        let e = spec_access_node(s, sep.end());
        if e is Done && sep.end() > p && e.end() > sep.end() {
            lemma_more_access_nodes_stable(s, t, e.end(), acc.push(e.value()));
        }
    }
}

/// `access_node_list`: an answer other than `Incomplete` stays the same when more input follows,
/// and a success ends within the input.
pub proof fn lemma_access_node_list_stable(s: Seq<u8>, t: Seq<u8>, i: int)
    requires
        0 <= i <= s.len(),
    ensures
        ends_in(spec_access_node_list(s, i), i, s.len() as int),
        settled(spec_access_node_list(s, i)) ==> spec_access_node_list(s + t, i) == spec_access_node_list(s, i),
{
    lemma_access_node_stable(s, t, i);
    let first = spec_access_node(s, i);
    if first is Done && first.end() != i {
        lemma_more_access_nodes_stable(s, t, first.end(), seq![first.value()]);
    }
}

/// `env_var_head`: an answer other than `Incomplete` stays the same when more input follows,
/// and a success ends within the input.
pub proof fn lemma_env_var_head_stable(s: Seq<u8>, t: Seq<u8>, i: int)
    requires
        0 <= i <= s.len(),
    ensures
        ends_in(spec_env_var_head(s, i), i, s.len() as int),
        settled(spec_env_var_head(s, i)) ==> spec_env_var_head(s + t, i) == spec_env_var_head(s, i),
{
    lemma_tag_stable(s, t, i, kw("EV_"));
    let x0 = spec_tag(s, i, kw("EV_"));
    if x0 is Done {
        lemma_ss_stable(s, t, x0.end());
        let x1 = spec_ss(s, x0.end());
        if x1 is Done {
            lemma_c_ident_stable(s, t, x1.end());
            let x2 = spec_c_ident(s, x1.end());
            if x2 is Done {
                lemma_char_stable(s, t, x2.end(), ':' as u8);
                let x3 = spec_char(s, x2.end(), ':' as u8);
                if x3 is Done {
                    lemma_ss_stable(s, t, x3.end());
                    let x4 = spec_ss(s, x3.end());
                    if x4 is Done {
                        lemma_env_var_type_stable(s, t, x4.end());
                        let x5 = spec_env_var_type(s, x4.end());
                        if x5 is Done {
                            lemma_ss_stable(s, t, x5.end());
                            let x6 = spec_ss(s, x5.end());
                            if x6 is Done {
                                lemma_char_stable(s, t, x6.end(), '[' as u8);
                                let x7 = spec_char(s, x6.end(), '[' as u8);
                                if x7 is Done {
                                    lemma_i64_digit_stable(s, t, x7.end());
                                    let x8 = spec_i64_digit(s, x7.end());
                                    if x8 is Done {
                                        lemma_char_stable(s, t, x8.end(), '|' as u8);
                                        let x9 = spec_char(s, x8.end(), '|' as u8);
                                        if x9 is Done {
                                            lemma_i64_digit_stable(s, t, x9.end());
                                            let x10 = spec_i64_digit(s, x9.end());
                                            if x10 is Done {
                                                lemma_char_stable(s, t, x10.end(), ']' as u8);
                                                let x11 = spec_char(s, x10.end(), ']' as u8);
                                                if x11 is Done {
                                                    lemma_ss_stable(s, t, x11.end());
                                                }
                                            }
                                        }
                                    }
                                }
                            }
                        }
                    }
                }
            }
        }
    }
}

/// `env_var_tail`: an answer other than `Incomplete` stays the same when more input follows,
/// and a success ends within the input.
pub proof fn lemma_env_var_tail_stable(s: Seq<u8>, t: Seq<u8>, i: int)
    requires
        0 <= i <= s.len(),
    ensures
        ends_in(spec_env_var_tail(s, i), i, s.len() as int),
        settled(spec_env_var_tail(s, i)) ==> spec_env_var_tail(s + t, i) == spec_env_var_tail(s, i),
{
    lemma_quoted_stable(s, t, i);
    let x0 = spec_quoted(s, i);
    if x0 is Done {
        lemma_ss_stable(s, t, x0.end());
        let x1 = spec_ss(s, x0.end());
        if x1 is Done {
            lemma_double_stable(s, t, x1.end());
            let x2 = spec_double(s, x1.end());
            if x2 is Done {
                lemma_ss_stable(s, t, x2.end());
                let x3 = spec_ss(s, x2.end());
                if x3 is Done {
                    lemma_i64_digit_stable(s, t, x3.end());
                    let x4 = spec_i64_digit(s, x3.end());
                    if x4 is Done {
                        lemma_ss_stable(s, t, x4.end());
                        let x5 = spec_ss(s, x4.end());
                        if x5 is Done {
                            lemma_access_type_stable(s, t, x5.end());
                            let x6 = spec_access_type(s, x5.end());
                            if x6 is Done {
                                lemma_ss_stable(s, t, x6.end());
                            }
                        }
                    }
                }
            }
        }
    }
}

/// `environment_variable`: an answer other than `Incomplete` stays the same when more input follows,
/// and a success ends within the input.
pub proof fn lemma_environment_variable_stable(s: Seq<u8>, t: Seq<u8>, i: int)
    requires
        0 <= i <= s.len(),
    ensures
        ends_in(spec_environment_variable(s, i), i, s.len() as int),
        settled(spec_environment_variable(s, i)) ==> spec_environment_variable(s + t, i) == spec_environment_variable(s, i),
{
    lemma_env_var_head_stable(s, t, i);
    let x0 = spec_env_var_head(s, i);
    if x0 is Done {
        lemma_env_var_tail_stable(s, t, x0.end());
        let x1 = spec_env_var_tail(s, x0.end());
        if x1 is Done {
            lemma_access_node_list_stable(s, t, x1.end());
            let x2 = spec_access_node_list(s, x1.end());
            if x2 is Done {
                lemma_char_stable(s, t, x2.end(), ';' as u8);
            }
        }
    }
}

/// `envvar_data`: an answer other than `Incomplete` stays the same when more input follows,
/// and a success ends within the input.
pub proof fn lemma_envvar_data_stable(s: Seq<u8>, t: Seq<u8>, i: int)
    requires
        0 <= i <= s.len(),
    ensures
        ends_in(spec_envvar_data(s, i), i, s.len() as int),
        settled(spec_envvar_data(s, i)) ==> spec_envvar_data(s + t, i) == spec_envvar_data(s, i),
{
    lemma_tag_stable(s, t, i, kw("ENVVAR_DATA_"));
    let x0 = spec_tag(s, i, kw("ENVVAR_DATA_"));
    if x0 is Done {
        lemma_ss_stable(s, t, x0.end());
        let x1 = spec_ss(s, x0.end());
        if x1 is Done {
            lemma_c_ident_stable(s, t, x1.end());
            let x2 = spec_c_ident(s, x1.end());
            if x2 is Done {
                lemma_char_stable(s, t, x2.end(), ':' as u8);
                let x3 = spec_char(s, x2.end(), ':' as u8);
                if x3 is Done {
                    lemma_ss_stable(s, t, x3.end());
                    let x4 = spec_ss(s, x3.end());
                    if x4 is Done {
                        lemma_u64_s_stable(s, t, x4.end());
                        let x5 = spec_u64_s(s, x4.end());
                        if x5 is Done {
                            lemma_char_stable(s, t, x5.end(), ';' as u8);
                        }
                    }
                }
            }
        }
    }
}

/// `version`: an answer other than `Incomplete` stays the same when more input follows,
/// and a success ends within the input.
pub proof fn lemma_version_stable(s: Seq<u8>, t: Seq<u8>, i: int)
    requires
        0 <= i <= s.len(),
    ensures
        ends_in(spec_version(s, i), i, s.len() as int),
        settled(spec_version(s, i)) ==> spec_version(s + t, i) == spec_version(s, i),
{
    lemma_tag_stable(s, t, i, kw("VERSION"));
    let x0 = spec_tag(s, i, kw("VERSION"));
    if x0 is Done {
        lemma_ss_stable(s, t, x0.end());
        let x1 = spec_ss(s, x0.end());
        if x1 is Done {
            lemma_quoted_stable(s, t, x1.end());
        }
    }
}

/// `symbol`: an answer other than `Incomplete` stays the same when more input follows,
/// and a success ends within the input.
pub proof fn lemma_symbol_stable(s: Seq<u8>, t: Seq<u8>, i: int)
    requires
        0 <= i <= s.len(),
    ensures
        ends_in(spec_symbol(s, i), i, s.len() as int),
        settled(spec_symbol(s, i)) ==> spec_symbol(s + t, i) == spec_symbol(s, i),
{
    lemma_take_while1_stable(s, t, i, ByteClass::Blank);
    let x0 = spec_take_while1(s, i, ByteClass::Blank);
    if x0 is Done {
        lemma_c_ident_stable(s, t, x0.end());
    }
}

/// `more_symbols`: an answer other than `Incomplete` stays the same when more input follows,
/// and a success ends within the input.
pub proof fn lemma_more_symbols_stable(s: Seq<u8>, t: Seq<u8>, p: int, acc: Seq<Seq<char>>)
    requires
        0 <= p <= s.len(),
    ensures
        ends_in(spec_more_symbols(s, p, acc), p, s.len() as int),
        settled(spec_more_symbols(s, p, acc)) ==> spec_more_symbols(s + t, p, acc) == spec_more_symbols(s, p, acc),
    decreases s.len() - p,
{
    lemma_line_ending_stable(s, t, p);
    let sep = spec_line_ending(s, p);
    if sep is Done {
        lemma_symbol_stable(s, t, sep.end());
        let e = spec_symbol(s, sep.end());
        if e is Done && sep.end() > p && e.end() > sep.end() {
            lemma_more_symbols_stable(s, t, e.end(), acc.push(e.value()));
        }
    }
}

/// `symbol_list`: an answer other than `Incomplete` stays the same when more input follows,
/// and a success ends within the input.
pub proof fn lemma_symbol_list_stable(s: Seq<u8>, t: Seq<u8>, i: int)
    requires
        0 <= i <= s.len(),
    ensures
        ends_in(spec_symbol_list(s, i), i, s.len() as int),
        settled(spec_symbol_list(s, i)) ==> spec_symbol_list(s + t, i) == spec_symbol_list(s, i),
{
    lemma_symbol_stable(s, t, i);
    let first = spec_symbol(s, i);
    if first is Done && first.end() != i {
        lemma_more_symbols_stable(s, t, first.end(), seq![first.value()]);
    }
}

/// `new_symbols`: an answer other than `Incomplete` stays the same when more input follows,
/// and a success ends within the input.
pub proof fn lemma_new_symbols_stable(s: Seq<u8>, t: Seq<u8>, i: int)
    requires
        0 <= i <= s.len(),
    ensures
        ends_in(spec_new_symbols(s, i), i, s.len() as int),
        settled(spec_new_symbols(s, i)) ==> spec_new_symbols(s + t, i) == spec_new_symbols(s, i),
{
    lemma_tag_stable(s, t, i, kw("NS_ :"));
    let x0 = spec_tag(s, i, kw("NS_ :"));
    if x0 is Done {
        lemma_line_ending_stable(s, t, x0.end());
        let x1 = spec_line_ending(s, x0.end());
        if x1 is Done {
            lemma_symbol_list_stable(s, t, x1.end());
        }
    }
}

/// `more_node_names`: an answer other than `Incomplete` stays the same when more input follows,
/// and a success ends within the input.
pub proof fn lemma_more_node_names_stable(s: Seq<u8>, t: Seq<u8>, p: int, acc: Seq<Seq<char>>)
    requires
        0 <= p <= s.len(),
    ensures
        ends_in(spec_more_node_names(s, p, acc), p, s.len() as int),
        settled(spec_more_node_names(s, p, acc)) ==> spec_more_node_names(s + t, p, acc) == spec_more_node_names(s, p, acc),
    decreases s.len() - p,
{
    lemma_ss_stable(s, t, p);
    let sep = spec_ss(s, p);
    if sep is Done {
        lemma_c_ident_stable(s, t, sep.end());
        let e = spec_c_ident(s, sep.end());
        if e is Done && sep.end() > p && e.end() > sep.end() {
            lemma_more_node_names_stable(s, t, e.end(), acc.push(e.value()));
        }
    }
}

/// `node_names`: an answer other than `Incomplete` stays the same when more input follows,
/// and a success ends within the input.
pub proof fn lemma_node_names_stable(s: Seq<u8>, t: Seq<u8>, i: int)
    requires
        0 <= i <= s.len(),
    ensures
        ends_in(spec_node_names(s, i), i, s.len() as int),
        settled(spec_node_names(s, i)) ==> spec_node_names(s + t, i) == spec_node_names(s, i),
{
    lemma_c_ident_stable(s, t, i);
    let first = spec_c_ident(s, i);
    if first is Done && first.end() != i {
        lemma_more_node_names_stable(s, t, first.end(), seq![first.value()]);
    }
}

/// `network_node`: an answer other than `Incomplete` stays the same when more input follows,
/// and a success ends within the input.
pub proof fn lemma_network_node_stable(s: Seq<u8>, t: Seq<u8>, i: int)
    requires
        0 <= i <= s.len(),
    ensures
        ends_in(spec_network_node(s, i), i, s.len() as int),
        settled(spec_network_node(s, i)) ==> spec_network_node(s + t, i) == spec_network_node(s, i),
{
    lemma_tag_stable(s, t, i, kw("BU_:"));
    let x0 = spec_tag(s, i, kw("BU_:"));
    if x0 is Done {
        lemma_ss_stable(s, t, x0.end());
        let x1 = spec_ss(s, x0.end());
        if x1 is Done {
            lemma_node_names_stable(s, t, x1.end());
        }
    }
}

/// An element that parses, or does not match, does so whatever input follows it.
pub proof fn lemma_dbc_element_stable(s: Seq<u8>, t: Seq<u8>, i: int)
    requires
        0 <= i <= s.len(),
    ensures
        ends_in(spec_dbc_element(s, i), i, s.len() as int),
        settled(spec_dbc_element(s, i)) ==> spec_dbc_element(s + t, i) == spec_dbc_element(s, i),
{
    lemma_message_definition_stable(s, t, i);
    lemma_environment_variable_stable(s, t, i);
    lemma_comment_stable(s, t, i);
    lemma_value_description_for_env_var_stable(s, t, i);
    lemma_value_description_for_signal_stable(s, t, i);
    lemma_attribute_value_for_object_stable(s, t, i);
    lemma_network_node_stable(s, t, i);
    lemma_envvar_data_stable(s, t, i);
    lemma_attribute_default_stable(s, t, i);
}

/// Where the closing ` ;` of the descriptions is cut off by the end of the input, so is
/// the next description; an answer other than `Incomplete` therefore never rests on a
/// closing ` ;` that more input could complete.
pub proof fn lemma_more_descriptions_stable(
    s: Seq<u8>,
    t: Seq<u8>,
    p: int,
    acc: Seq<SpecValueDescription>,
)
    requires
        0 <= p <= s.len(),
    ensures
        ends_in(spec_more_descriptions(s, p, acc), p, s.len() as int),
        settled(spec_more_descriptions(s, p, acc)) ==> spec_more_descriptions(s + t, p, acc)
            == spec_more_descriptions(s, p, acc),
    decreases s.len() - p,
{
    lemma_description_end_stable(s, t, p);
    lemma_description_item_stable(s, t, p);
    let e = spec_description_item(s, p);
    if e is Done && e.end() > p {
        lemma_more_descriptions_stable(s, t, e.end(), acc.push(e.value()));
    }
}

} // verus!
