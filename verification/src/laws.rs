//! Properties of the grammar as a whole.
use vstd::prelude::*;
use vstd::utf8::{valid_utf8, decode_utf8, is_ascii_chars};
use crate::outcome::{Parsed, ParseError, completed};
use crate::lexical::{
    ByteClass, in_class, lemma_scan_end, scan_end, spec_c_ident, spec_quoted, spec_line_ending,
    spec_take_while1, spec_tag, kw, is_digit_byte, decimal_value, spec_i64_digit, spec_ss, spec_char,
};
use crate::environment::{spec_env_var_type, spec_environment_variable, spec_env_var_head, spec_env_var_tail};
use crate::attributes::spec_attribute_default;
use crate::document::{
    spec_dbc_definition, spec_more_symbols, spec_more_elements, spec_symbol, spec_dbc_element,
    spec_opt_multispace, spec_version, spec_new_symbols,
};
use crate::signal::{spec_signal_head, spec_signal_layout, spec_signal_type, spec_signal_scaling, spec_signal_range, spec_signal_unit, spec_signal, spec_more_signals, spec_message_definition, spec_message_header};
use crate::streaming::{lemma_take_while1_stable, lemma_c_ident_stable, lemma_signal_type_stable, lemma_ss_stable, lemma_char_stable, lemma_i64_digit_stable, lemma_env_var_head_stable, lemma_env_var_tail_stable, lemma_access_node_list_stable, lemma_signal_layout_stable, lemma_signal_scaling_stable, lemma_signal_range_stable, lemma_signal_unit_stable, lemma_c_ident_vec_stable, lemma_tag_stable, lemma_symbol_stable, lemma_line_ending_stable, lemma_signal_stable, lemma_message_header_stable};
use crate::types::{Endianess, ValueType, SpecSignal, SpecDbcElement, SpecAttributeValue, EnvType};

verus! {

/// A C identifier starts with a letter or an underscore and goes on with letters,
/// digits and underscores, as far as they reach; its value is the text of those bytes.
pub proof fn c_ident_is_c_identifier(s: Seq<u8>, i: int)
    requires
        0 <= i <= s.len(),
        spec_c_ident(s, i) is Done,
    ensures
        ({
            let j = spec_c_ident(s, i).end();
            &&& i < j < s.len()
            &&& in_class(ByteClass::IdentHead, s[i])
            &&& forall|k: int| i <= k < j ==> in_class(ByteClass::IdentTail, #[trigger] s[k])
            &&& !in_class(ByteClass::IdentTail, s[j])
            &&& valid_utf8(s.subrange(i, j))
            &&& spec_c_ident(s, i).value() == decode_utf8(s.subrange(i, j))
        }),
{
    lemma_scan_end(s, i, ByteClass::IdentHead);
    let h = scan_end(s, i, ByteClass::IdentHead);
    lemma_scan_end(s, h, ByteClass::IdentTail);
    assert forall|k: int| i <= k < h implies in_class(ByteClass::IdentTail, #[trigger] s[k]) by {
        assert(in_class(ByteClass::IdentHead, s[k]));
    }
}

/// Quoted text is the text between a `"` and the next `"`.
pub proof fn quoted_text_has_no_quote(s: Seq<u8>, i: int)
    requires
        0 <= i <= s.len(),
        spec_quoted(s, i) is Done,
    ensures
        ({
            let j = spec_quoted(s, i).end();
            &&& i + 2 <= j <= s.len()
            &&& s[i] == '"' as u8
            &&& s[j - 1] == '"' as u8
            &&& forall|k: int| i < k < j - 1 ==> #[trigger] s[k] != '"' as u8
            &&& spec_quoted(s, i).value() == decode_utf8(s.subrange(i + 1, j - 1))
        }),
{
    lemma_scan_end(s, i + 1, ByteClass::NotQuote);
    assert forall|k: int| i < k < spec_quoted(s, i).end() - 1 implies #[trigger] s[k] != '"' as u8 by {
        assert(in_class(ByteClass::NotQuote, s[k]));
    }
}

proof fn lemma_more_symbols_keeps(s: Seq<u8>, p: int, acc: Seq<Seq<char>>)
    ensures
        spec_more_symbols(s, p, acc) is Done ==> acc.len() <= spec_more_symbols(s, p, acc).value().len(),
    decreases s.len() - p,
{
    let sep = spec_line_ending(s, p);
    if sep is Done {
        let e = spec_symbol(s, sep.end());
        if e is Done && sep.end() > p && e.end() > sep.end() && e.end() <= s.len() {
            lemma_more_symbols_keeps(s, e.end(), acc.push(e.value()));
        }
    }
}

proof fn lemma_more_elements_keeps(s: Seq<u8>, p: int, acc: Seq<SpecDbcElement>)
    ensures
        spec_more_elements(s, p, acc) is Done ==> acc.len() <= spec_more_elements(s, p, acc).value().len(),
    decreases s.len() - p,
{
    let sep = completed(spec_take_while1(s, p, ByteClass::Whitespace));
    if sep is Done {
        let e = completed(spec_dbc_element(s, sep.end()));
        if e is Done && sep.end() > p && e.end() > sep.end() && e.end() <= s.len() {
            lemma_more_elements_keeps(s, e.end(), acc.push(e.value()));
        }
    }
}

/// A DBC file that parses has at least one new symbol and at least one element.
pub proof fn dbc_definition_is_not_empty(s: Seq<u8>)
    requires
        spec_dbc_definition(s, 0) is Done,
    ensures
        spec_dbc_definition(s, 0).value().symbols.len() >= 1,
        spec_dbc_definition(s, 0).value().elements.len() >= 1,
{
    let a = spec_opt_multispace(s, 0);
    let v = spec_version(s, a.end());
    let b = spec_opt_multispace(s, v.end());
    let n = spec_new_symbols(s, b.end());
    let c = spec_opt_multispace(s, n.end());
    let x = spec_tag(s, b.end(), kw("NS_ :"));
    let y = spec_line_ending(s, x.end());
    let first = spec_symbol(s, y.end());
    lemma_more_symbols_keeps(s, first.end(), seq![first.value()]);
    let f = completed(spec_dbc_element(s, c.end()));
    lemma_more_elements_keeps(s, f.end(), seq![f.value()]);
}

/// The bytes of a keyword of ASCII characters are those characters.
pub proof fn lemma_kw_ascii(t: &str)
    requires
        is_ascii_chars(t@),
    ensures
        kw(t).len() == t@.len(),
        forall|k: int| 0 <= k < t@.len() ==> #[trigger] kw(t)[k] == t@[k] as u8,
{
    vstd::utf8::is_ascii_chars_encode_utf8(t@);
}

/// A run of a class that is followed by a byte outside it ends at that byte.
pub proof fn lemma_scan_stops(s: Seq<u8>, a: int, d: int, c: ByteClass)
    requires
        0 <= a <= d < s.len(),
        forall|k: int| a <= k < d ==> in_class(c, #[trigger] s[k]),
        !in_class(c, s[d]),
    ensures
        scan_end(s, a, c) == d,
    decreases d - a,
{
    if a < d {
        lemma_scan_stops(s, a + 1, d, c);
    }
}

/// The type of an environment variable that its digit names.
pub open spec fn env_type_of_digit(b: u8) -> Option<EnvType> {
    if b == '0' as u8 {
        Some(EnvType::EnvTypeFloat)
    } else if b == '1' as u8 {
        Some(EnvType::EnvTypeu64)
    } else if b == '2' as u8 {
        Some(EnvType::EnvTypeData)
    } else {
        None
    }
}

/// The type of an environment variable is one digit: `0` a float, `1` an integer,
/// `2` data; any other byte does not match, and no byte at all is `Incomplete`.
pub proof fn env_var_type_digits(s: Seq<u8>, i: int)
    requires
        0 <= i <= s.len(),
    ensures
        i == s.len() ==> spec_env_var_type(s, i) == Parsed::<EnvType>::Fail(ParseError::Incomplete),
        i < s.len() ==> spec_env_var_type(s, i) == match env_type_of_digit(s[i]) {
            Some(ty) => Parsed::Done(i + 1, ty),
            None => Parsed::<EnvType>::Fail(ParseError::Error),
        },
{
}

/// An attribute default written as a number: `BA_DEF_DEF_ "name" digits;` gives the
/// name and the unsigned value of the digits.
#[verifier::rlimit(100)]
pub proof fn numeric_attribute_default(s: Seq<u8>, i: int, q: int, d: int)
    requires
        0 <= i,
        i + 12 < q,
        q + 2 < d < s.len(),
        s.subrange(i, i + 11) == kw("BA_DEF_DEF_"),
        s[i + 11] == ' ' as u8,
        s[i + 12] == '"' as u8,
        forall|k: int| i + 12 < k < q ==> #[trigger] s[k] != '"' as u8,
        s[q] == '"' as u8,
        s[q + 1] == ' ' as u8,
        forall|k: int| q + 2 <= k < d ==> is_digit_byte(#[trigger] s[k]),
        s[d] == ';' as u8,
        decimal_value(s.subrange(q + 2, d)) <= u64::MAX,
        valid_utf8(s.subrange(i + 13, q)),
    ensures
        spec_attribute_default(s, i) == Parsed::Done(
            d + 1,
            SpecDbcElement::AttributeDefault(
                decode_utf8(s.subrange(i + 13, q)),
                SpecAttributeValue::AttributeValueU64(decimal_value(s.subrange(q + 2, d)) as u64),
            ),
        ),
{
    reveal_strlit("BA_DEF_DEF_");
    lemma_kw_ascii("BA_DEF_DEF_");
    let w = kw("BA_DEF_DEF_");
    assert forall|k: int| 0 <= k < w.len() implies s[i + k] == w[k] by {
        assert(s.subrange(i, i + 11)[k] == s[i + k]);
    }
    assert(spec_tag(s, i, w) == Parsed::Done(i + 11, ()));
    lemma_scan_stops(s, i + 13, q, ByteClass::NotQuote);
    lemma_scan_stops(s, q + 2, d, ByteClass::Digit);
}

/// An attribute default written as quoted text: `BA_DEF_DEF_ "name" "text";` gives the
/// name and the text.
pub proof fn text_attribute_default(s: Seq<u8>, i: int, q: int, r: int)
    requires
        0 <= i,
        i + 12 < q,
        q + 2 < r,
        r + 1 < s.len(),
        s.subrange(i, i + 11) == kw("BA_DEF_DEF_"),
        s[i + 11] == ' ' as u8,
        s[i + 12] == '"' as u8,
        forall|k: int| i + 12 < k < q ==> #[trigger] s[k] != '"' as u8,
        s[q] == '"' as u8,
        s[q + 1] == ' ' as u8,
        s[q + 2] == '"' as u8,
        forall|k: int| q + 2 < k < r ==> #[trigger] s[k] != '"' as u8,
        s[r] == '"' as u8,
        s[r + 1] == ';' as u8,
        valid_utf8(s.subrange(i + 13, q)),
        valid_utf8(s.subrange(q + 3, r)),
    ensures
        spec_attribute_default(s, i) == Parsed::Done(
            r + 2,
            SpecDbcElement::AttributeDefault(
                decode_utf8(s.subrange(i + 13, q)),
                SpecAttributeValue::AttributeValueCharString(decode_utf8(s.subrange(q + 3, r))),
            ),
        ),
{
    reveal_strlit("BA_DEF_DEF_");
    lemma_kw_ascii("BA_DEF_DEF_");
    let w = kw("BA_DEF_DEF_");
    assert forall|k: int| 0 <= k < w.len() implies s[i + k] == w[k] by {
        assert(s.subrange(i, i + 11)[k] == s[i + k]);
    }
    assert(spec_tag(s, i, w) == Parsed::Done(i + 11, ()));
    lemma_scan_stops(s, i + 13, q, ByteClass::NotQuote);
    lemma_scan_stops(s, q + 3, r, ByteClass::NotQuote);
    lemma_scan_stops(s, q + 2, q + 2, ByteClass::Digit);
}

/// From `p` to `q` the input holds the signal lines `w`, each after a line ending.
pub open spec fn signal_lines_after(s: Seq<u8>, p: int, q: int, w: Seq<SpecSignal>) -> bool
    decreases w.len(),
{
    if w.len() == 0 {
        p == q
    } else {
        let le = spec_line_ending(s, p);
        &&& le is Done
        &&& spec_signal(s, le.end()) is Done
        &&& spec_signal(s, le.end()).value() == w[0]
        &&& signal_lines_after(s, spec_signal(s, le.end()).end(), q, w.drop_first())
    }
}

#[verifier::rlimit(100)]
proof fn lemma_more_signals_lines(s: Seq<u8>, p: int, acc: Seq<SpecSignal>)
    requires
        0 <= p <= s.len(),
    ensures
        spec_more_signals(s, p, acc) is Done ==> {
            let r = spec_more_signals(s, p, acc);
            &&& acc.len() <= r.value().len()
            &&& r.value().subrange(0, acc.len() as int) == acc
            &&& signal_lines_after(s, p, r.end(), r.value().subrange(acc.len() as int, r.value().len() as int))
            &&& !(spec_line_ending(s, r.end()) is Done && r.end() < spec_line_ending(s, r.end()).end()
                && spec_signal(s, spec_line_ending(s, r.end()).end()) is Done
                && spec_line_ending(s, r.end()).end() < spec_signal(s, spec_line_ending(s, r.end()).end()).end())
        },
    decreases s.len() - p,
{
    lemma_line_ending_stable(s, s, p);
    let sep = spec_line_ending(s, p);
    let r = spec_more_signals(s, p, acc);
    if sep is Done {
        lemma_signal_stable(s, s, sep.end());
        let e = spec_signal(s, sep.end());
        if e is Done && sep.end() > p && e.end() > sep.end() && e.end() <= s.len() {
            lemma_more_signals_lines(s, e.end(), acc.push(e.value()));
            if r is Done {
                let v = r.value();
                let n = acc.len() as int;
                assert(v.subrange(0, n) =~= acc) by {
                    assert(v.subrange(0, n + 1).subrange(0, n) =~= v.subrange(0, n));
                }
                let w = v.subrange(n, v.len() as int);
                assert(w[0] == e.value()) by {
                    assert(v.subrange(0, n + 1)[n] == v[n]);
                }
                assert(w.drop_first() =~= v.subrange(n + 1, v.len() as int));
            }
        } else if r is Done {
            assert(r.value().subrange(acc.len() as int, r.value().len() as int) =~= Seq::<SpecSignal>::empty());
            assert(r.value().subrange(0, acc.len() as int) =~= acc);
        }
    } else if r is Done {
        assert(r.value().subrange(acc.len() as int, r.value().len() as int) =~= Seq::<SpecSignal>::empty());
        assert(r.value().subrange(0, acc.len() as int) =~= acc);
    }
}

/// The signals of a message are exactly its signal lines: the first follows the header,
/// each further one follows a line ending (`\n` or `\r\n`), and the message ends where
/// no line ending with a further signal line follows.
#[verifier::rlimit(100)]
pub proof fn message_signals_are_its_signal_lines(s: Seq<u8>, i: int)
    requires
        0 <= i <= s.len(),
        spec_message_definition(s, i) is Done,
    ensures
        ({
            let m = spec_message_definition(s, i);
            let h = spec_message_header(s, i).end();
            let first = spec_signal(s, h);
            &&& m.value() matches SpecDbcElement::Message(_, _, _, _, _, sigs)
            &&& sigs.len() >= 1
            &&& first is Done
            &&& sigs[0] == first.value()
            &&& signal_lines_after(s, first.end(), m.end(), sigs.drop_first())
            &&& !(spec_line_ending(s, m.end()) is Done && m.end() < spec_line_ending(s, m.end()).end()
                && spec_signal(s, spec_line_ending(s, m.end()).end()) is Done
                && spec_line_ending(s, m.end()).end() < spec_signal(s, spec_line_ending(s, m.end()).end()).end())
        }),
{
    lemma_message_header_stable(s, s, i);
    let h = spec_message_header(s, i).end();
    let first = spec_signal(s, h);
    lemma_signal_stable(s, s, h);
    lemma_more_signals_lines(s, first.end(), seq![first.value()]);
    let v = spec_more_signals(s, first.end(), seq![first.value()]).value();
    assert(v.subrange(1, v.len() as int) =~= v.drop_first());
    assert(v[0] == v.subrange(0, 1)[0]);
}

/// From `p` to `q` the input holds the symbol lines `w`, each after a line ending.
pub open spec fn symbol_lines_after(s: Seq<u8>, p: int, q: int, w: Seq<Seq<char>>) -> bool
    decreases w.len(),
{
    if w.len() == 0 {
        p == q
    } else {
        let le = spec_line_ending(s, p);
        &&& le is Done
        &&& spec_symbol(s, le.end()) is Done
        &&& spec_symbol(s, le.end()).value() == w[0]
        &&& symbol_lines_after(s, spec_symbol(s, le.end()).end(), q, w.drop_first())
    }
}

/// No further symbol line, after a line ending, follows position `q`.
pub open spec fn no_symbol_line_after(s: Seq<u8>, q: int) -> bool {
    let le = spec_line_ending(s, q);
    !(le is Done && q < le.end() && spec_symbol(s, le.end()) is Done && le.end() < spec_symbol(
        s,
        le.end(),
    ).end())
}

#[verifier::rlimit(100)]
proof fn lemma_more_symbols_lines(s: Seq<u8>, p: int, acc: Seq<Seq<char>>)
    requires
        0 <= p <= s.len(),
    ensures
        spec_more_symbols(s, p, acc) is Done ==> {
            let r = spec_more_symbols(s, p, acc);
            &&& acc.len() <= r.value().len()
            &&& r.value().subrange(0, acc.len() as int) == acc
            &&& symbol_lines_after(s, p, r.end(), r.value().subrange(acc.len() as int, r.value().len() as int))
            &&& no_symbol_line_after(s, r.end())
        },
    decreases s.len() - p,
{
    lemma_line_ending_stable(s, s, p);
    let sep = spec_line_ending(s, p);
    let r = spec_more_symbols(s, p, acc);
    if sep is Done {
        lemma_symbol_stable(s, s, sep.end());
        let e = spec_symbol(s, sep.end());
        if e is Done && sep.end() > p && e.end() > sep.end() && e.end() <= s.len() {
            lemma_more_symbols_lines(s, e.end(), acc.push(e.value()));
            if r is Done {
                let v = r.value();
                let n = acc.len() as int;
                assert(v.subrange(0, n) =~= acc) by {
                    assert(v.subrange(0, n + 1).subrange(0, n) =~= v.subrange(0, n));
                }
                let w = v.subrange(n, v.len() as int);
                assert(w[0] == e.value()) by {
                    assert(v.subrange(0, n + 1)[n] == v[n]);
                }
                assert(w.drop_first() =~= v.subrange(n + 1, v.len() as int));
            }
        } else if r is Done {
            assert(r.value().subrange(acc.len() as int, r.value().len() as int) =~= Seq::<Seq<char>>::empty());
            assert(r.value().subrange(0, acc.len() as int) =~= acc);
        }
    } else if r is Done {
        assert(r.value().subrange(acc.len() as int, r.value().len() as int) =~= Seq::<Seq<char>>::empty());
        assert(r.value().subrange(0, acc.len() as int) =~= acc);
    }
}

/// The new symbols are exactly the symbol lines under `NS_ :`: the first on the line after
/// it, each further one after a line ending, up to where no line ending with a further
/// symbol line follows.
#[verifier::rlimit(100)]
pub proof fn new_symbols_are_the_symbol_lines(s: Seq<u8>, i: int)
    requires
        0 <= i <= s.len(),
        spec_new_symbols(s, i) is Done,
    ensures
        ({
            let n = spec_new_symbols(s, i);
            let t = spec_tag(s, i, kw("NS_ :"));
            let first = spec_symbol(s, spec_line_ending(s, t.end()).end());
            &&& t is Done
            &&& spec_line_ending(s, t.end()) is Done
            &&& first is Done
            &&& n.value().len() >= 1
            &&& n.value()[0] == first.value()
            &&& symbol_lines_after(s, first.end(), n.end(), n.value().drop_first())
            &&& no_symbol_line_after(s, n.end())
        }),
{
    let t = spec_tag(s, i, kw("NS_ :"));
    lemma_tag_stable(s, s, i, kw("NS_ :"));
    lemma_line_ending_stable(s, s, t.end());
    let le = spec_line_ending(s, t.end());
    lemma_symbol_stable(s, s, le.end());
    let first = spec_symbol(s, le.end());
    lemma_more_symbols_lines(s, first.end(), seq![first.value()]);
    let v = spec_more_symbols(s, first.end(), seq![first.value()]).value();
    assert(v.subrange(1, v.len() as int) =~= v.drop_first());
    assert(v[0] == v.subrange(0, 1)[0]);
}

/// The symbols of a parsed DBC file are the whole list of new symbols of its `NS_ :`
/// section, which starts where the version and the whitespace after it end.
pub proof fn dbc_definition_keeps_all_symbols(s: Seq<u8>)
    requires
        spec_dbc_definition(s, 0) is Done,
    ensures
        ({
            let v = spec_version(s, spec_opt_multispace(s, 0).end());
            let p = spec_opt_multispace(s, v.end()).end();
            &&& spec_new_symbols(s, p) is Done
            &&& spec_dbc_definition(s, 0).value().symbols == spec_new_symbols(s, p).value()
            &&& spec_dbc_definition(s, 0).value().version == v.value()
        }),
{
}

#[verifier::rlimit(100)]
proof fn lemma_signal_head_has_no_at(s: Seq<u8>, i: int)
    requires
        0 <= i <= s.len(),
        spec_signal_head(s, i) is Done,
    ensures
        i < spec_signal_head(s, i).end() <= s.len(),
        forall|k: int| i <= k < spec_signal_head(s, i).end() ==> #[trigger] s[k] != '@' as u8,
{
    reveal_strlit("SG_");
    lemma_kw_ascii("SG_");
    lemma_scan_end(s, i, ByteClass::Blank);
    let b = scan_end(s, i, ByteClass::Blank);
    let w = kw("SG_");
    let n0 = b + 4;
    lemma_scan_end(s, n0, ByteClass::IdentHead);
    let hd = scan_end(s, n0, ByteClass::IdentHead);
    lemma_scan_end(s, hd, ByteClass::IdentTail);
    let n = scan_end(s, hd, ByteClass::IdentTail);
    lemma_scan_end(s, n + 1, ByteClass::Digit);
    let md = scan_end(s, n + 1, ByteClass::Digit);
    let st = spec_signal_type(s, n);
    let h = spec_signal_head(s, i).end();
    assert(spec_tag(s, b, w) is Done);
    assert forall|k: int| 0 <= k < 3 implies s[b + k] == w[k] by {}
    assert forall|k: int| i <= k < h implies #[trigger] s[k] != '@' as u8 by {
        if k < b {
            assert(in_class(ByteClass::Blank, s[k]));
        } else if k < b + 3 {
            assert(s[b + (k - b)] == w[k - b]);
        } else if k < n0 {
        } else if k < hd {
            assert(in_class(ByteClass::IdentHead, s[k]));
        } else if k < n {
            assert(in_class(ByteClass::IdentTail, s[k]));
        } else if k == n {
        } else if k < st.end() {
            if s[n] == 'm' as u8 && k <= md && k > n {
                if k < md {
                    assert(in_class(ByteClass::Digit, s[k]));
                }
            }
        }
    }
}

#[verifier::rlimit(100)]
proof fn lemma_signal_layout_at_sign(s: Seq<u8>, h: int)
    requires
        0 <= h <= s.len(),
        spec_signal_layout(s, h) is Done,
    ensures
        ({
            let l = spec_signal_layout(s, h);
            exists|p: int|
                #![trigger s[p]]
                h <= p && p + 3 <= l.end() && s[p] == '@' as u8 && (forall|k: int|
                    h <= k < p ==> #[trigger] s[k] != '@' as u8) && byte_order_of(s[p + 1])
                    == Some(l.value().2) && sign_of(s[p + 2]) == Some(l.value().3)
        }),
{
    lemma_scan_end(s, h, ByteClass::Digit);
    let o = scan_end(s, h, ByteClass::Digit);
    lemma_scan_end(s, o + 1, ByteClass::Digit);
    let p = scan_end(s, o + 1, ByteClass::Digit);
    assert forall|k: int| h <= k < p implies #[trigger] s[k] != '@' as u8 by {
        if k < o {
            assert(in_class(ByteClass::Digit, s[k]));
        } else if k > o {
            assert(in_class(ByteClass::Digit, s[k]));
        }
    }
    assert(s[p] == '@' as u8);
}

/// The byte order that a digit names: `1` little endian, `0` big endian.
pub open spec fn byte_order_of(b: u8) -> Option<Endianess> {
    if b == '1' as u8 {
        Some(Endianess::LittleEndian)
    } else if b == '0' as u8 {
        Some(Endianess::BigEndian)
    } else {
        None
    }
}

/// The signedness that a sign names: `-` signed, `+` unsigned.
pub open spec fn sign_of(b: u8) -> Option<ValueType> {
    if b == '-' as u8 {
        Some(ValueType::Signed)
    } else if b == '+' as u8 {
        Some(ValueType::Unsigned)
    } else {
        None
    }
}

/// The byte order and signedness of a signal are the two bytes after the first `@` of its
/// line: `1` little endian and `0` big endian, then `-` signed and `+` unsigned.
#[verifier::rlimit(100)]
pub proof fn signal_byte_order_follows_at_sign(s: Seq<u8>, i: int)
    requires
        0 <= i <= s.len(),
        spec_signal(s, i) is Done,
    ensures
        ({
            let sig = spec_signal(s, i);
            exists|p: int|
                #![trigger s[p]]
                i < p && p + 3 <= sig.end() && s[p] == '@' as u8 && (forall|k: int|
                    i <= k < p ==> #[trigger] s[k] != '@' as u8) && byte_order_of(s[p + 1])
                    == Some(sig.value().endianess) && sign_of(s[p + 2]) == Some(
                    sig.value().value_type,
                )
        }),
{
    let hd = spec_signal_head(s, i);
    lemma_signal_head_has_no_at(s, i);
    let h = hd.end();
    let l = spec_signal_layout(s, h);
    lemma_signal_layout_stable(s, s, h);
    lemma_signal_layout_at_sign(s, h);
    let p = choose|p: int|
        #![trigger s[p]]
        h <= p && p + 3 <= l.end() && s[p] == '@' as u8 && (forall|k: int|
            h <= k < p ==> #[trigger] s[k] != '@' as u8) && byte_order_of(s[p + 1]) == Some(
            l.value().2,
        ) && sign_of(s[p + 2]) == Some(l.value().3);
    lemma_signal_scaling_stable(s, s, l.end());
    let sc = spec_signal_scaling(s, l.end());
    lemma_signal_range_stable(s, s, sc.end());
    let rg = spec_signal_range(s, sc.end());
    lemma_signal_unit_stable(s, s, rg.end());
    let u = spec_signal_unit(s, rg.end());
    lemma_c_ident_vec_stable(s, s, u.end());
    assert(forall|k: int| i <= k < p ==> #[trigger] s[k] != '@' as u8);
    assert(s[p] == '@' as u8);
}

/// A run of digits `s[a..o]`, a `|`, a run of digits up to `p`, and an `@` at `p`, where the
/// runs write `offset` and `length`.
pub open spec fn layout_numbers(s: Seq<u8>, a: int, o: int, p: int, offset: u64, length: u64) -> bool {
    &&& 0 <= a < o < p < s.len()
    &&& s[o] == '|' as u8
    &&& s[p] == '@' as u8
    &&& forall|k: int| a <= k < o ==> is_digit_byte(#[trigger] s[k])
    &&& forall|k: int| o < k < p ==> is_digit_byte(#[trigger] s[k])
    &&& offset == decimal_value(s.subrange(a, o))
    &&& length == decimal_value(s.subrange(o + 1, p))
}

proof fn lemma_signal_head_ends_with_colon_space(s: Seq<u8>, i: int)
    requires
        0 <= i <= s.len(),
        spec_signal_head(s, i) is Done,
    ensures
        2 <= spec_signal_head(s, i).end(),
        s[spec_signal_head(s, i).end() - 2] == ':' as u8,
        s[spec_signal_head(s, i).end() - 1] == ' ' as u8,
{
    let x0 = spec_take_while1(s, i, ByteClass::Blank);
    lemma_take_while1_stable(s, s, i, ByteClass::Blank);
    let x1 = spec_tag(s, x0.end(), kw("SG_"));
    lemma_tag_stable(s, s, x0.end(), kw("SG_"));
    let x2 = spec_ss(s, x1.end());
    lemma_ss_stable(s, s, x1.end());
    let name = spec_c_ident(s, x2.end());
    lemma_c_ident_stable(s, s, x2.end());
    let st = spec_signal_type(s, name.end());
    lemma_signal_type_stable(s, s, name.end());
    let x5 = spec_char(s, st.end(), ':' as u8);
    assert(x5 is Done);
    assert(s[st.end()] == ':' as u8);
    assert(spec_signal_head(s, i).end() == st.end() + 2);
}

#[verifier::rlimit(100)]
proof fn lemma_signal_layout_numbers(s: Seq<u8>, h: int)
    requires
        0 <= h <= s.len(),
        spec_signal_layout(s, h) is Done,
    ensures
        ({
            let l = spec_signal_layout(s, h);
            let o = scan_end(s, h, ByteClass::Digit);
            let p = scan_end(s, o + 1, ByteClass::Digit);
            &&& layout_numbers(s, h, o, p, l.value().0, l.value().1)
            &&& p + 3 <= l.end()
        }),
{
    lemma_scan_end(s, h, ByteClass::Digit);
    let o = scan_end(s, h, ByteClass::Digit);
    lemma_scan_end(s, o + 1, ByteClass::Digit);
}

/// The start bit and length of a signal are the two numbers `offset|length` that follow
/// the `: ` after its name, up to the `@` before its byte order.
#[verifier::rlimit(100)]
pub proof fn signal_offset_and_length(s: Seq<u8>, i: int)
    requires
        0 <= i <= s.len(),
        spec_signal(s, i) is Done,
    ensures
        ({
            let sig = spec_signal(s, i);
            let a = spec_signal_head(s, i).end();
            let o = scan_end(s, a, ByteClass::Digit);
            let p = scan_end(s, o + 1, ByteClass::Digit);
            &&& i < a && 2 <= a
            &&& s[a - 2] == ':' as u8
            &&& s[a - 1] == ' ' as u8
            &&& layout_numbers(s, a, o, p, sig.value().offset, sig.value().length)
            &&& p + 3 <= sig.end()
        }),
{
    let hd = spec_signal_head(s, i);
    lemma_signal_head_ends_with_colon_space(s, i);
    lemma_signal_head_has_no_at(s, i);
    let h = hd.end();
    let l = spec_signal_layout(s, h);
    lemma_signal_layout_numbers(s, h);
    let o = scan_end(s, h, ByteClass::Digit);
    let p = scan_end(s, o + 1, ByteClass::Digit);
    lemma_signal_scaling_stable(s, s, l.end());
    let sc = spec_signal_scaling(s, l.end());
    lemma_signal_range_stable(s, s, sc.end());
    let rg = spec_signal_range(s, sc.end());
    lemma_signal_unit_stable(s, s, rg.end());
    let u = spec_signal_unit(s, rg.end());
    lemma_c_ident_vec_stable(s, s, u.end());
}

proof fn lemma_c_ident_bytes(s: Seq<u8>, a: int)
    requires
        0 <= a <= s.len(),
        spec_c_ident(s, a) is Done,
    ensures
        a < spec_c_ident(s, a).end() < s.len(),
        forall|k: int| a <= k < spec_c_ident(s, a).end() ==> in_class(ByteClass::IdentTail, #[trigger] s[k]),
{
    c_ident_is_c_identifier(s, a);
}

#[verifier::rlimit(100)]
proof fn lemma_env_var_head_type(s: Seq<u8>, i: int)
    requires
        0 <= i <= s.len(),
        spec_env_var_head(s, i) is Done,
    ensures
        ({
            let h = spec_env_var_head(s, i);
            exists|c: int|
                #![trigger s[c]]
                i < c && c + 3 <= h.end() && s[c] == ':' as u8 && (forall|k: int|
                    i <= k < c ==> #[trigger] s[k] != ':' as u8) && s[c + 1] == ' ' as u8
                    && env_type_of_digit(s[c + 2]) == Some(h.value().1)
        }),
{
    reveal_strlit("EV_");
    lemma_kw_ascii("EV_");
    let w = kw("EV_");
    assert(spec_tag(s, i, w) is Done);
    assert forall|k: int| 0 <= k < 3 implies s[i + k] == w[k] by {}
    let n0 = i + 4;
    lemma_c_ident_bytes(s, n0);
    let c = spec_c_ident(s, n0).end();
    lemma_ss_stable(s, s, c + 3);
    lemma_char_stable(s, s, c + 4, '[' as u8);
    lemma_i64_digit_stable(s, s, c + 5);
    let mn = spec_i64_digit(s, c + 5);
    lemma_char_stable(s, s, mn.end(), '|' as u8);
    lemma_i64_digit_stable(s, s, mn.end() + 1);
    let mx = spec_i64_digit(s, mn.end() + 1);
    lemma_char_stable(s, s, mx.end(), ']' as u8);
    lemma_ss_stable(s, s, mx.end() + 1);
    assert forall|k: int| i <= k < c implies #[trigger] s[k] != ':' as u8 by {
        if k < i + 3 {
            assert(s[i + (k - i)] == w[k - i]);
        } else if k >= n0 {
            assert(in_class(ByteClass::IdentTail, s[k]));
        }
    }
    assert(s[c] == ':' as u8);
}

/// The type of an environment variable is the digit after the `: ` that follows its
/// name: `0` a float, `1` an integer, `2` data.
#[verifier::rlimit(100)]
pub proof fn environment_variable_type_follows_colon(s: Seq<u8>, i: int)
    requires
        0 <= i <= s.len(),
        spec_environment_variable(s, i) is Done,
    ensures
        ({
            let ev = spec_environment_variable(s, i);
            exists|c: int|
                #![trigger s[c]]
                i < c && c + 3 <= ev.end() && s[c] == ':' as u8 && (forall|k: int|
                    i <= k < c ==> #[trigger] s[k] != ':' as u8) && s[c + 1] == ' ' as u8
                    && (ev.value() matches SpecDbcElement::EnvVariable(_, ty, _, _, _, _, _, _, _)
                    && env_type_of_digit(s[c + 2]) == Some(ty))
        }),
{
    lemma_env_var_head_type(s, i);
    let h = spec_env_var_head(s, i);
    lemma_env_var_tail_stable(s, s, h.end());
    let t = spec_env_var_tail(s, h.end());
    lemma_access_node_list_stable(s, s, t.end());
}

} // verus!
