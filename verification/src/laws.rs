//! Properties that relate the built-ins to each other and hold of all
//! their inputs.
use vstd::prelude::*;
use crate::compare::{compare_result, min_max_acc, number_sign, CmpOp};
use crate::eval_util::loosely_equal;
use crate::seq_builtins::{chunks, reverse_result, seq_contains_result};
use crate::sequences::{from_index, index_of_result, item_eq, listable_items, scan_forward};
use crate::settings::canonical_key;
use crate::sort::{insert_stable, key_after, sorted_indices, KeyVal};
use crate::strings::chopped;
use crate::text::{char_utf16, units_order, utf16_units};
use crate::compare::nfkc;
use crate::output_format::{escape_char, escape_text, OutputFormatKind};
use crate::value::Val;
use crate::ast::{Expr, ExprKind, Span};
use crate::eval::{eval_val, lambda_fold, lambda_val, lenient_val, Fail};

verus! {

/// `?seq_contains(x)` holds exactly when `?seq_index_of(x)` finds an index
/// (and both fail alike).
pub proof fn law_seq_contains_iff_index_found(v: Val, x: Val)
    requires
        listable_items(v) is Some,
    ensures
        match index_of_result(listable_items(v)->Some_0, x, from_index(None), true) {
            Ok(i) => seq_contains_result(v, x) == Ok::<bool, Seq<char>>(i >= 0),
            Err(m) => seq_contains_result(v, x) == Err::<bool, Seq<char>>(m),
        },
{
}

/// A forward search from `start` that finds index `i` finds the first item
/// at or after `start` loosely equal to `x`: every item between compares
/// unequal without error.
pub proof fn law_index_of_finds_first(items: Seq<Val>, x: Val, start: int)
    requires
        0 <= start,
        scan_forward(items, x, start) matches Ok(i) && i >= 0,
    ensures
        ({
            let i = scan_forward(items, x, start)->Ok_0;
            &&& start <= i < items.len()
            &&& item_eq(i, items[i], x) == Ok::<bool, Seq<char>>(true)
            &&& forall|j: int| start <= j < i ==> item_eq(j, items[j], x) == Ok::<bool, Seq<char>>(false)
        }),
    decreases items.len() - start,
{
    if start < items.len() {
        match item_eq(start, items[start], x) {
            Ok(true) => {},
            Ok(false) => {
                law_index_of_finds_first(items, x, start + 1);
            },
            Err(_) => {},
        }
    }
}

/// A forward search that finds nothing compares every item from `start` on
/// as unequal.
pub proof fn law_index_of_not_found(items: Seq<Val>, x: Val, start: int)
    requires
        0 <= start,
        scan_forward(items, x, start) == Ok::<int, Seq<char>>(-1),
    ensures
        forall|j: int| start <= j < items.len() ==> item_eq(j, items[j], x) == Ok::<bool, Seq<char>>(false),
    decreases items.len() - start,
{
    if start < items.len() {
        law_index_of_not_found(items, x, start + 1);
    }
}

/// The UTF-16 order is antisymmetric: `a` sorts before `b` exactly when `b`
/// sorts after `a`, and they are equal only when their code units are.
pub proof fn law_units_order_antisymmetric(a: Seq<u16>, b: Seq<u16>)
    ensures
        (units_order(a, b) == std::cmp::Ordering::Less) == (units_order(b, a)
            == std::cmp::Ordering::Greater),
        (units_order(a, b) == std::cmp::Ordering::Equal) == (a == b),
    decreases a.len(),
{
    if a.len() > 0 && b.len() > 0 && a[0] == b[0] {
        law_units_order_antisymmetric(a.drop_first(), b.drop_first());
        if a.drop_first() == b.drop_first() {
            assert forall|k: int| 0 <= k < a.len() implies a[k] == b[k] by {
                if k > 0 {
                    assert(a[k] == a.drop_first()[k - 1]);
                    assert(b[k] == b.drop_first()[k - 1]);
                }
            }
            assert(a =~= b);
        }
        if a == b {
            assert(a.drop_first() =~= b.drop_first());
        }
    } else if a.len() == 0 && b.len() == 0 {
        assert(a =~= b);
    }
}

/// Reversing a sequence or a string twice gives it back.
pub proof fn law_reverse_twice(v: Val)
    requires
        v is Sequence || v is Scalar,
    ensures
        reverse_result(v) matches Ok(r) && reverse_result(r) == Ok::<Val, Seq<char>>(v),
{
    match v {
        Val::Sequence(s) => {
            assert(s.reverse().reverse() =~= s);
        },
        Val::Scalar(s) => {
            assert(s.reverse().reverse() =~= s);
        },
        _ => {},
    }
}

/// The items of all chunks (without filler), one after the other.
pub open spec fn flatten(cs: Seq<Val>) -> Seq<Val>
    decreases cs.len(),
{
    if cs.len() == 0 {
        Seq::empty()
    } else {
        let head = match cs[0] {
            Val::Sequence(s) => s,
            _ => Seq::empty(),
        };
        head + flatten(cs.drop_first())
    }
}

/// A chunk holds 1 to `size` items, exactly `size` unless it is the last.
pub open spec fn chunk_shape(c: Val, size: nat, is_last: bool) -> bool {
    c matches Val::Sequence(items) && 1 <= items.len() <= size && (!is_last ==> items.len() == size)
}

/// Without a filler, the chunks hold the items in order, every chunk but
/// the last holds `size` items, and the last holds 1 to `size`.
pub proof fn law_chunks_partition(items: Seq<Val>, size: nat)
    requires
        size > 0,
    ensures
        flatten(chunks(items, size, None)) == items,
        forall|k: int|
            0 <= k < chunks(items, size, None).len() ==> chunk_shape(
                #[trigger] chunks(items, size, None)[k],
                size,
                k == chunks(items, size, None).len() - 1,
            ),
    decreases items.len(),
{
    if items.len() == 0 {
    } else if items.len() <= size {
        let cs = chunks(items, size, None);
        assert(crate::seq_builtins::padded(items, size, None) == items);
        assert(cs[0] == Val::Sequence(items));
        assert(cs.drop_first() =~= Seq::<Val>::empty());
        assert(flatten(cs.drop_first()) =~= Seq::<Val>::empty());
        assert(flatten(cs) =~= items);
    } else {
        law_chunks_partition(items.skip(size as int), size);
        let cs = chunks(items, size, None);
        let rest = chunks(items.skip(size as int), size, None);
        assert(cs.drop_first() =~= rest);
        assert(flatten(cs) =~= items.take(size as int) + flatten(rest));
        assert(items.take(size as int) + items.skip(size as int) =~= items);
        assert forall|k: int| 0 <= k < cs.len() implies chunk_shape(
            #[trigger] cs[k],
            size,
            k == cs.len() - 1,
        ) by {
            if k > 0 {
                assert(cs[k] == rest[k - 1]);
            }
        }
    }
}

/// The canonical key of a setting name is its own canonical key.
pub proof fn law_canonical_key_idempotent(name: Seq<char>)
    ensures
        canonical_key(canonical_key(name)) == canonical_key(name),
{
    assert(canonical_key("boolean_format"@) == "boolean_format"@) by {
        reveal_strlit("boolean_format");
    }
    assert(canonical_key("c_format"@) == "c_format"@) by {
        reveal_strlit("c_format");
        reveal_strlit("booleanFormat");
        assert("c_format"@.len() != "booleanFormat"@.len());
        reveal_strlit("boolean_format");
        assert("c_format"@.len() != "boolean_format"@.len());
    }
    assert(canonical_key("classic_compatible"@) == "classic_compatible"@) by {
        reveal_strlit("classic_compatible");
        reveal_strlit("booleanFormat");
        assert("classic_compatible"@.len() != "booleanFormat"@.len());
        reveal_strlit("boolean_format");
        assert("classic_compatible"@.len() != "boolean_format"@.len());
        reveal_strlit("cFormat");
        assert("classic_compatible"@.len() != "cFormat"@.len());
        reveal_strlit("c_format");
        assert("classic_compatible"@.len() != "c_format"@.len());
    }
    assert(canonical_key("date_format"@) == "date_format"@) by {
        reveal_strlit("date_format");
        reveal_strlit("booleanFormat");
        assert("date_format"@.len() != "booleanFormat"@.len());
        reveal_strlit("boolean_format");
        assert("date_format"@.len() != "boolean_format"@.len());
        reveal_strlit("cFormat");
        assert("date_format"@.len() != "cFormat"@.len());
        reveal_strlit("c_format");
        assert("date_format"@.len() != "c_format"@.len());
        reveal_strlit("classicCompatible");
        assert("date_format"@.len() != "classicCompatible"@.len());
        reveal_strlit("classic_compatible");
        assert("date_format"@.len() != "classic_compatible"@.len());
    }
    assert(canonical_key("datetime_format"@) == "datetime_format"@) by {
        reveal_strlit("datetime_format");
        reveal_strlit("booleanFormat");
        assert("datetime_format"@.len() != "booleanFormat"@.len());
        reveal_strlit("boolean_format");
        assert("datetime_format"@.len() != "boolean_format"@.len());
        reveal_strlit("cFormat");
        assert("datetime_format"@.len() != "cFormat"@.len());
        reveal_strlit("c_format");
        assert("datetime_format"@.len() != "c_format"@.len());
        reveal_strlit("classicCompatible");
        assert("datetime_format"@.len() != "classicCompatible"@.len());
        reveal_strlit("classic_compatible");
        assert("datetime_format"@.len() != "classic_compatible"@.len());
        reveal_strlit("dateFormat");
        assert("datetime_format"@.len() != "dateFormat"@.len());
        reveal_strlit("date_format");
        assert("datetime_format"@.len() != "date_format"@.len());
    }
    assert(canonical_key("locale"@) == "locale"@) by {
        reveal_strlit("locale");
        reveal_strlit("booleanFormat");
        assert("locale"@.len() != "booleanFormat"@.len());
        reveal_strlit("boolean_format");
        assert("locale"@.len() != "boolean_format"@.len());
        reveal_strlit("cFormat");
        assert("locale"@.len() != "cFormat"@.len());
        reveal_strlit("c_format");
        assert("locale"@.len() != "c_format"@.len());
        reveal_strlit("classicCompatible");
        assert("locale"@.len() != "classicCompatible"@.len());
        reveal_strlit("classic_compatible");
        assert("locale"@.len() != "classic_compatible"@.len());
        reveal_strlit("dateFormat");
        assert("locale"@.len() != "dateFormat"@.len());
        reveal_strlit("date_format");
        assert("locale"@.len() != "date_format"@.len());
        reveal_strlit("datetimeFormat");
        assert("locale"@.len() != "datetimeFormat"@.len());
        reveal_strlit("datetime_format");
        assert("locale"@.len() != "datetime_format"@.len());
    }
    assert(canonical_key("number_format"@) == "number_format"@) by {
        reveal_strlit("number_format");
        reveal_strlit("booleanFormat");
        assert("number_format"@[0] != "booleanFormat"@[0]);
        reveal_strlit("boolean_format");
        assert("number_format"@.len() != "boolean_format"@.len());
        reveal_strlit("cFormat");
        assert("number_format"@.len() != "cFormat"@.len());
        reveal_strlit("c_format");
        assert("number_format"@.len() != "c_format"@.len());
        reveal_strlit("classicCompatible");
        assert("number_format"@.len() != "classicCompatible"@.len());
        reveal_strlit("classic_compatible");
        assert("number_format"@.len() != "classic_compatible"@.len());
        reveal_strlit("dateFormat");
        assert("number_format"@.len() != "dateFormat"@.len());
        reveal_strlit("date_format");
        assert("number_format"@.len() != "date_format"@.len());
        reveal_strlit("datetimeFormat");
        assert("number_format"@.len() != "datetimeFormat"@.len());
        reveal_strlit("datetime_format");
        assert("number_format"@.len() != "datetime_format"@.len());
        reveal_strlit("locale");
        assert("number_format"@.len() != "locale"@.len());
    }
    assert(canonical_key("output_encoding"@) == "output_encoding"@) by {
        reveal_strlit("output_encoding");
        reveal_strlit("booleanFormat");
        assert("output_encoding"@.len() != "booleanFormat"@.len());
        reveal_strlit("boolean_format");
        assert("output_encoding"@.len() != "boolean_format"@.len());
        reveal_strlit("cFormat");
        assert("output_encoding"@.len() != "cFormat"@.len());
        reveal_strlit("c_format");
        assert("output_encoding"@.len() != "c_format"@.len());
        reveal_strlit("classicCompatible");
        assert("output_encoding"@.len() != "classicCompatible"@.len());
        reveal_strlit("classic_compatible");
        assert("output_encoding"@.len() != "classic_compatible"@.len());
        reveal_strlit("dateFormat");
        assert("output_encoding"@.len() != "dateFormat"@.len());
        reveal_strlit("date_format");
        assert("output_encoding"@.len() != "date_format"@.len());
        reveal_strlit("datetimeFormat");
        assert("output_encoding"@.len() != "datetimeFormat"@.len());
        reveal_strlit("datetime_format");
        assert("output_encoding"@[0] != "datetime_format"@[0]);
        reveal_strlit("locale");
        assert("output_encoding"@.len() != "locale"@.len());
        reveal_strlit("numberFormat");
        assert("output_encoding"@.len() != "numberFormat"@.len());
        reveal_strlit("number_format");
        assert("output_encoding"@.len() != "number_format"@.len());
    }
    assert(canonical_key("sql_date_and_time_time_zone"@) == "sql_date_and_time_time_zone"@) by {
        reveal_strlit("sql_date_and_time_time_zone");
        reveal_strlit("booleanFormat");
        assert("sql_date_and_time_time_zone"@.len() != "booleanFormat"@.len());
        reveal_strlit("boolean_format");
        assert("sql_date_and_time_time_zone"@.len() != "boolean_format"@.len());
        reveal_strlit("cFormat");
        assert("sql_date_and_time_time_zone"@.len() != "cFormat"@.len());
        reveal_strlit("c_format");
        assert("sql_date_and_time_time_zone"@.len() != "c_format"@.len());
        reveal_strlit("classicCompatible");
        assert("sql_date_and_time_time_zone"@.len() != "classicCompatible"@.len());
        reveal_strlit("classic_compatible");
        assert("sql_date_and_time_time_zone"@.len() != "classic_compatible"@.len());
        reveal_strlit("dateFormat");
        assert("sql_date_and_time_time_zone"@.len() != "dateFormat"@.len());
        reveal_strlit("date_format");
        assert("sql_date_and_time_time_zone"@.len() != "date_format"@.len());
        reveal_strlit("datetimeFormat");
        assert("sql_date_and_time_time_zone"@.len() != "datetimeFormat"@.len());
        reveal_strlit("datetime_format");
        assert("sql_date_and_time_time_zone"@.len() != "datetime_format"@.len());
        reveal_strlit("locale");
        assert("sql_date_and_time_time_zone"@.len() != "locale"@.len());
        reveal_strlit("numberFormat");
        assert("sql_date_and_time_time_zone"@.len() != "numberFormat"@.len());
        reveal_strlit("number_format");
        assert("sql_date_and_time_time_zone"@.len() != "number_format"@.len());
        reveal_strlit("outputEncoding");
        assert("sql_date_and_time_time_zone"@.len() != "outputEncoding"@.len());
        reveal_strlit("output_encoding");
        assert("sql_date_and_time_time_zone"@.len() != "output_encoding"@.len());
    }
    assert(canonical_key("template_exception_handler"@) == "template_exception_handler"@) by {
        reveal_strlit("template_exception_handler");
        reveal_strlit("booleanFormat");
        assert("template_exception_handler"@.len() != "booleanFormat"@.len());
        reveal_strlit("boolean_format");
        assert("template_exception_handler"@.len() != "boolean_format"@.len());
        reveal_strlit("cFormat");
        assert("template_exception_handler"@.len() != "cFormat"@.len());
        reveal_strlit("c_format");
        assert("template_exception_handler"@.len() != "c_format"@.len());
        reveal_strlit("classicCompatible");
        assert("template_exception_handler"@.len() != "classicCompatible"@.len());
        reveal_strlit("classic_compatible");
        assert("template_exception_handler"@.len() != "classic_compatible"@.len());
        reveal_strlit("dateFormat");
        assert("template_exception_handler"@.len() != "dateFormat"@.len());
        reveal_strlit("date_format");
        assert("template_exception_handler"@.len() != "date_format"@.len());
        reveal_strlit("datetimeFormat");
        assert("template_exception_handler"@.len() != "datetimeFormat"@.len());
        reveal_strlit("datetime_format");
        assert("template_exception_handler"@.len() != "datetime_format"@.len());
        reveal_strlit("locale");
        assert("template_exception_handler"@.len() != "locale"@.len());
        reveal_strlit("numberFormat");
        assert("template_exception_handler"@.len() != "numberFormat"@.len());
        reveal_strlit("number_format");
        assert("template_exception_handler"@.len() != "number_format"@.len());
        reveal_strlit("outputEncoding");
        assert("template_exception_handler"@.len() != "outputEncoding"@.len());
        reveal_strlit("output_encoding");
        assert("template_exception_handler"@.len() != "output_encoding"@.len());
        reveal_strlit("sqlDateAndTimeTimeZone");
        assert("template_exception_handler"@.len() != "sqlDateAndTimeTimeZone"@.len());
        reveal_strlit("sql_date_and_time_time_zone");
        assert("template_exception_handler"@.len() != "sql_date_and_time_time_zone"@.len());
    }
    assert(canonical_key("time_format"@) == "time_format"@) by {
        reveal_strlit("time_format");
        reveal_strlit("booleanFormat");
        assert("time_format"@.len() != "booleanFormat"@.len());
        reveal_strlit("boolean_format");
        assert("time_format"@.len() != "boolean_format"@.len());
        reveal_strlit("cFormat");
        assert("time_format"@.len() != "cFormat"@.len());
        reveal_strlit("c_format");
        assert("time_format"@.len() != "c_format"@.len());
        reveal_strlit("classicCompatible");
        assert("time_format"@.len() != "classicCompatible"@.len());
        reveal_strlit("classic_compatible");
        assert("time_format"@.len() != "classic_compatible"@.len());
        reveal_strlit("dateFormat");
        assert("time_format"@.len() != "dateFormat"@.len());
        reveal_strlit("date_format");
        assert("time_format"@[0] != "date_format"@[0]);
        reveal_strlit("datetimeFormat");
        assert("time_format"@.len() != "datetimeFormat"@.len());
        reveal_strlit("datetime_format");
        assert("time_format"@.len() != "datetime_format"@.len());
        reveal_strlit("locale");
        assert("time_format"@.len() != "locale"@.len());
        reveal_strlit("numberFormat");
        assert("time_format"@.len() != "numberFormat"@.len());
        reveal_strlit("number_format");
        assert("time_format"@.len() != "number_format"@.len());
        reveal_strlit("outputEncoding");
        assert("time_format"@.len() != "outputEncoding"@.len());
        reveal_strlit("output_encoding");
        assert("time_format"@.len() != "output_encoding"@.len());
        reveal_strlit("sqlDateAndTimeTimeZone");
        assert("time_format"@.len() != "sqlDateAndTimeTimeZone"@.len());
        reveal_strlit("sql_date_and_time_time_zone");
        assert("time_format"@.len() != "sql_date_and_time_time_zone"@.len());
        reveal_strlit("templateExceptionHandler");
        assert("time_format"@.len() != "templateExceptionHandler"@.len());
        reveal_strlit("template_exception_handler");
        assert("time_format"@.len() != "template_exception_handler"@.len());
    }
    assert(canonical_key("time_zone"@) == "time_zone"@) by {
        reveal_strlit("time_zone");
        reveal_strlit("booleanFormat");
        assert("time_zone"@.len() != "booleanFormat"@.len());
        reveal_strlit("boolean_format");
        assert("time_zone"@.len() != "boolean_format"@.len());
        reveal_strlit("cFormat");
        assert("time_zone"@.len() != "cFormat"@.len());
        reveal_strlit("c_format");
        assert("time_zone"@.len() != "c_format"@.len());
        reveal_strlit("classicCompatible");
        assert("time_zone"@.len() != "classicCompatible"@.len());
        reveal_strlit("classic_compatible");
        assert("time_zone"@.len() != "classic_compatible"@.len());
        reveal_strlit("dateFormat");
        assert("time_zone"@.len() != "dateFormat"@.len());
        reveal_strlit("date_format");
        assert("time_zone"@.len() != "date_format"@.len());
        reveal_strlit("datetimeFormat");
        assert("time_zone"@.len() != "datetimeFormat"@.len());
        reveal_strlit("datetime_format");
        assert("time_zone"@.len() != "datetime_format"@.len());
        reveal_strlit("locale");
        assert("time_zone"@.len() != "locale"@.len());
        reveal_strlit("numberFormat");
        assert("time_zone"@.len() != "numberFormat"@.len());
        reveal_strlit("number_format");
        assert("time_zone"@.len() != "number_format"@.len());
        reveal_strlit("outputEncoding");
        assert("time_zone"@.len() != "outputEncoding"@.len());
        reveal_strlit("output_encoding");
        assert("time_zone"@.len() != "output_encoding"@.len());
        reveal_strlit("sqlDateAndTimeTimeZone");
        assert("time_zone"@.len() != "sqlDateAndTimeTimeZone"@.len());
        reveal_strlit("sql_date_and_time_time_zone");
        assert("time_zone"@.len() != "sql_date_and_time_time_zone"@.len());
        reveal_strlit("templateExceptionHandler");
        assert("time_zone"@.len() != "templateExceptionHandler"@.len());
        reveal_strlit("template_exception_handler");
        assert("time_zone"@.len() != "template_exception_handler"@.len());
        reveal_strlit("timeFormat");
        assert("time_zone"@.len() != "timeFormat"@.len());
        reveal_strlit("time_format");
        assert("time_zone"@.len() != "time_format"@.len());
    }
    assert(canonical_key("url_escaping_charset"@) == "url_escaping_charset"@) by {
        reveal_strlit("url_escaping_charset");
        reveal_strlit("booleanFormat");
        assert("url_escaping_charset"@.len() != "booleanFormat"@.len());
        reveal_strlit("boolean_format");
        assert("url_escaping_charset"@.len() != "boolean_format"@.len());
        reveal_strlit("cFormat");
        assert("url_escaping_charset"@.len() != "cFormat"@.len());
        reveal_strlit("c_format");
        assert("url_escaping_charset"@.len() != "c_format"@.len());
        reveal_strlit("classicCompatible");
        assert("url_escaping_charset"@.len() != "classicCompatible"@.len());
        reveal_strlit("classic_compatible");
        assert("url_escaping_charset"@.len() != "classic_compatible"@.len());
        reveal_strlit("dateFormat");
        assert("url_escaping_charset"@.len() != "dateFormat"@.len());
        reveal_strlit("date_format");
        assert("url_escaping_charset"@.len() != "date_format"@.len());
        reveal_strlit("datetimeFormat");
        assert("url_escaping_charset"@.len() != "datetimeFormat"@.len());
        reveal_strlit("datetime_format");
        assert("url_escaping_charset"@.len() != "datetime_format"@.len());
        reveal_strlit("locale");
        assert("url_escaping_charset"@.len() != "locale"@.len());
        reveal_strlit("numberFormat");
        assert("url_escaping_charset"@.len() != "numberFormat"@.len());
        reveal_strlit("number_format");
        assert("url_escaping_charset"@.len() != "number_format"@.len());
        reveal_strlit("outputEncoding");
        assert("url_escaping_charset"@.len() != "outputEncoding"@.len());
        reveal_strlit("output_encoding");
        assert("url_escaping_charset"@.len() != "output_encoding"@.len());
        reveal_strlit("sqlDateAndTimeTimeZone");
        assert("url_escaping_charset"@.len() != "sqlDateAndTimeTimeZone"@.len());
        reveal_strlit("sql_date_and_time_time_zone");
        assert("url_escaping_charset"@.len() != "sql_date_and_time_time_zone"@.len());
        reveal_strlit("templateExceptionHandler");
        assert("url_escaping_charset"@.len() != "templateExceptionHandler"@.len());
        reveal_strlit("template_exception_handler");
        assert("url_escaping_charset"@.len() != "template_exception_handler"@.len());
        reveal_strlit("timeFormat");
        assert("url_escaping_charset"@.len() != "timeFormat"@.len());
        reveal_strlit("time_format");
        assert("url_escaping_charset"@.len() != "time_format"@.len());
        reveal_strlit("timeZone");
        assert("url_escaping_charset"@.len() != "timeZone"@.len());
        reveal_strlit("time_zone");
        assert("url_escaping_charset"@.len() != "time_zone"@.len());
    }
}

/// `?chop_linebreak` removes at most a trailing `\r\n`, `\r` or `\n`, and
/// nothing from a text that does not end with a line break.
pub proof fn law_chop_removes_line_break(s: Seq<char>)
    ensures
        chopped(s).len() <= s.len(),
        s.take(chopped(s).len() as int) == chopped(s),
        s.len() - chopped(s).len() <= 2,
        (s.len() == 0 || (s.last() != '\n' && s.last() != '\r')) ==> chopped(s) == s,
{
}

/// Loose equality is symmetric.
pub proof fn law_loosely_equal_symmetric(a: Val, b: Val)
    ensures
        loosely_equal(a, b) == loosely_equal(b, a),
{
    match (a, b) {
        (Val::Number(x), Val::Number(y)) => {
            assert(x.scale() + y.scale() == y.scale() + x.scale());
        },
        _ => {},
    }
}

/// Comparing numbers: `a < b` exactly when `b > a`, and `==` and `!=`
/// always give opposite answers.
pub proof fn law_compare_numbers_consistent(a: Val, b: Val)
    requires
        a is Number,
        b is Number,
    ensures
        compare_result(a, b, CmpOp::Lt) == compare_result(b, a, CmpOp::Gt),
        compare_result(a, b, CmpOp::Lte) == compare_result(b, a, CmpOp::Gte),
        compare_result(a, b, CmpOp::Eq) matches Ok(x) && compare_result(a, b, CmpOp::NotEq) == Ok::<
            bool,
            Seq<char>,
        >(!x),
{
    let x = a->Number_0;
    let y = b->Number_0;
    assert(x.scale() + y.scale() == y.scale() + x.scale());
    assert(number_sign(x, y) == -number_sign(y, x));
}

/// Inserting an index into sorted indices adds exactly that index.
pub proof fn lemma_insert_stable_multiset(s: Seq<int>, i: int, ks: Seq<KeyVal>)
    ensures
        insert_stable(s, i, ks).to_multiset() == s.to_multiset().insert(i),
        insert_stable(s, i, ks).len() == s.len() + 1,
    decreases s.len(),
{
    broadcast use vstd::seq_lib::group_to_multiset_ensures;
    if s.len() == 0 {
        assert(seq![i] =~= Seq::<int>::empty().push(i));
    } else if key_after(ks[s.last()], ks[i]) {
        lemma_insert_stable_multiset(s.drop_last(), i, ks);
        assert(s.drop_last().push(s.last()) =~= s);
        assert(s.drop_last().to_multiset().insert(i).insert(s.last()) =~= s.drop_last().to_multiset().insert(
            s.last(),
        ).insert(i));
    }
}

/// The multiset of the indices `0..n`.
pub open spec fn index_multiset(n: nat) -> vstd::multiset::Multiset<int>
    decreases n,
{
    if n == 0 {
        vstd::multiset::Multiset::empty()
    } else {
        index_multiset((n - 1) as nat).insert(n - 1)
    }
}

/// Sorting reorders the items: the sorted indices are exactly `0..n`, each
/// once.
pub proof fn law_sort_is_permutation(ks: Seq<KeyVal>, n: nat)
    ensures
        sorted_indices(ks, n).to_multiset() == index_multiset(n),
        sorted_indices(ks, n).len() == n,
    decreases n,
{
    broadcast use vstd::seq_lib::group_to_multiset_ensures;
    if n == 0 {
        assert(sorted_indices(ks, n).to_multiset() =~= vstd::multiset::Multiset::empty());
    } else {
        law_sort_is_permutation(ks, (n - 1) as nat);
        lemma_insert_stable_multiset(sorted_indices(ks, (n - 1) as nat), n - 1, ks);
    }
}

} // verus!

verus! {

/// A number scaled further is the number scaled less, times the power of
/// ten between.
pub proof fn lemma_at_scale_rescale(x: crate::number::TNumber, e: nat, f: nat)
    requires
        x.scale() <= e <= f,
    ensures
        x.at_scale(f) == x.at_scale(e) * crate::number::pow10((f - e) as nat),
        crate::number::pow10((f - e) as nat) >= 1,
{
    let s = x.scale();
    crate::number::lemma_pow10_add((e - s) as nat, (f - e) as nat);
    crate::number::lemma_pow10_pos((f - e) as nat);
    assert(((e - s) as nat + (f - e) as nat) as nat == (f - s) as nat);
    let u = x.unscaled();
    let p1 = crate::number::pow10((e - s) as nat);
    let p2 = crate::number::pow10((f - e) as nat);
    assert(u * (p1 * p2) == (u * p1) * p2) by (nonlinear_arith);
}

/// Comparing two numbers at any common scale large enough gives their
/// order.
pub proof fn lemma_order_at(a: crate::number::TNumber, b: crate::number::TNumber, f: nat)
    requires
        a.scale() + b.scale() <= f,
    ensures
        a.lt(b) == (a.at_scale(f) < b.at_scale(f)),
        a.num_eq(b) == (a.at_scale(f) == b.at_scale(f)),
{
    let e = a.scale() + b.scale();
    lemma_at_scale_rescale(a, e, f);
    lemma_at_scale_rescale(b, e, f);
    let p = crate::number::pow10((f - e) as nat);
    let x = a.at_scale(e);
    let y = b.at_scale(e);
    assert((x < y) == (x * p < y * p)) by (nonlinear_arith)
        requires
            p >= 1,
    ;
    assert((x == y) == (x * p == y * p)) by (nonlinear_arith)
        requires
            p >= 1,
    ;
}

/// The order of numbers by value is transitive, and `<`, `==`, `>` exclude
/// each other and cover all pairs.
pub proof fn law_number_order(a: crate::number::TNumber, b: crate::number::TNumber, c: crate::number::TNumber)
    ensures
        a.lt(b) && b.lt(c) ==> a.lt(c),
        !b.lt(a) && !c.lt(b) ==> !c.lt(a),
        a.num_eq(b) && b.num_eq(c) ==> a.num_eq(c),
        a.lt(b) || a.num_eq(b) || b.lt(a),
        !(a.lt(b) && b.lt(a)),
        !(a.lt(b) && a.num_eq(b)),
{
    let f = a.scale() + b.scale() + c.scale();
    lemma_order_at(a, b, f);
    lemma_order_at(b, a, f);
    lemma_order_at(b, c, f);
    lemma_order_at(c, b, f);
    lemma_order_at(a, c, f);
    lemma_order_at(c, a, f);
}

} // verus!

verus! {

/// Every item is a number or null.
pub open spec fn numbers_or_null(items: Seq<Val>) -> bool {
    forall|i: int| 0 <= i < items.len() ==> (#[trigger] items[i] is Nothing || items[i] is Number)
}

/// `b` is at least (`want_max`) or at most every number among the items.
pub open spec fn bounds_all(items: Seq<Val>, b: crate::number::TNumber, want_max: bool) -> bool {
    forall|j: int|
        0 <= j < items.len() && #[trigger] items[j] is Number ==> (if want_max {
            !b.lt(items[j]->Number_0)
        } else {
            !items[j]->Number_0.lt(b)
        })
}

/// On numbers (nulls skipped), `?max` gives the greatest and `?min` the
/// least item, one of the items, and null only when every item is null.
pub proof fn law_min_max_extreme(items: Seq<Val>, want_max: bool)
    requires
        numbers_or_null(items),
    ensures
        min_max_acc_ok(items, want_max),
    decreases items.len(),
{
    if items.len() > 0 {
        let init = items.drop_last();
        assert(numbers_or_null(init)) by {
            assert forall|i: int| 0 <= i < init.len() implies (#[trigger] init[i] is Nothing
                || init[i] is Number) by {
                assert(init[i] == items[i]);
            }
        }
        law_min_max_extreme(init, want_max);
        let x = items.last();
        assert(items[items.len() - 1] == x);
        let r = crate::compare::min_max_acc(init, want_max)->Ok_0;
        match r {
            None => {
                assert forall|j: int| 0 <= j < items.len() && #[trigger] items[j] is Number implies j
                    == items.len() - 1 by {
                    if j < items.len() - 1 {
                        assert(init[j] == items[j]);
                    }
                }
                if !(x is Nothing) {
                    assert(bounds_all(items, x->Number_0, want_max)) by {
                        law_number_order(x->Number_0, x->Number_0, x->Number_0);
                    }
                }
            },
            Some(b) => {
                if !(x is Nothing) {
                    let xn = x->Number_0;
                    let bn = b->Number_0;
                    law_number_order(xn, bn, xn);
                    law_number_order(bn, xn, bn);
                    let replace = if want_max {
                        bn.lt(xn)
                    } else {
                        xn.lt(bn)
                    };
                    assert(crate::compare::number_sign(xn, bn) > 0 <==> bn.lt(xn)) by {
                        law_number_order(xn, bn, xn);
                    }
                    assert(crate::compare::number_sign(xn, bn) < 0 <==> xn.lt(bn));
                    let nb = if replace {
                        xn
                    } else {
                        bn
                    };
                    assert(bounds_all(items, nb, want_max)) by {
                        assert forall|j: int| 0 <= j < items.len() && #[trigger] items[j] is Number implies (if want_max {
                            !nb.lt(items[j]->Number_0)
                        } else {
                            !items[j]->Number_0.lt(nb)
                        }) by {
                            if j < items.len() - 1 {
                                assert(init[j] == items[j]);
                                law_number_order(items[j]->Number_0, bn, xn);
                                law_number_order(xn, bn, items[j]->Number_0);
                            }
                        }
                    }
                    if !replace {
                        let w = choose|i: int| 0 <= i < init.len() && init[i] == b;
                        assert(items[w] == b);
                    }
                } else {
                    let w = choose|i: int| 0 <= i < init.len() && init[i] == b;
                    assert(items[w] == b);
                    assert forall|j: int| 0 <= j < items.len() && #[trigger] items[j] is Number implies (if want_max {
                        !bn_of(b).lt(items[j]->Number_0)
                    } else {
                        !items[j]->Number_0.lt(bn_of(b))
                    }) by {
                        assert(init[j] == items[j]);
                    }
                }
            },
        }
    }
}

/// The number a value holds.
pub open spec fn bn_of(v: Val) -> crate::number::TNumber {
    v->Number_0
}

/// `?min` / `?max` over numbers and nulls never fails; its result is null
/// exactly when all items are null, and otherwise an item that bounds all
/// numbers.
pub open spec fn min_max_acc_ok(items: Seq<Val>, want_max: bool) -> bool {
    match crate::compare::min_max_acc(items, want_max) {
        Err(_) => false,
        Ok(None) => forall|j: int| 0 <= j < items.len() ==> (#[trigger] items[j] is Nothing),
        Ok(Some(b)) => {
            &&& b is Number
            &&& exists|i: int| 0 <= i < items.len() && items[i] == b
            &&& bounds_all(items, bn_of(b), want_max)
        },
    }
}

} // verus!

verus! {

/// The order of the keys is a strict weak order: no key sorts after itself,
/// sorting after is transitive, and so is not sorting after.
pub open spec fn weak_order(ks: Seq<KeyVal>) -> bool {
    &&& forall|i: int| 0 <= i < ks.len() ==> !key_after(#[trigger] ks[i], ks[i])
    &&& forall|i: int, j: int, k: int|
        0 <= i < ks.len() && 0 <= j < ks.len() && 0 <= k < ks.len() && #[trigger] key_after(ks[i], ks[j])
            && #[trigger] key_after(ks[j], ks[k]) ==> key_after(ks[i], ks[k])
    &&& forall|i: int, j: int, k: int|
        0 <= i < ks.len() && 0 <= j < ks.len() && 0 <= k < ks.len() && !#[trigger] key_after(ks[i], ks[j])
            && !#[trigger] key_after(ks[j], ks[k]) ==> !key_after(ks[i], ks[k])
}

/// Indices in key order: no index sorts after a later one, and indices of
/// equal keys keep their order.
pub open spec fn sorted_stable(s: Seq<int>, ks: Seq<KeyVal>) -> bool {
    &&& forall|p: int, q: int|
        0 <= p < q < s.len() ==> !key_after(#[trigger] ks[s[p]], #[trigger] ks[s[q]])
    &&& forall|p: int, q: int|
        0 <= p < q < s.len() && !key_after(#[trigger] ks[s[q]], #[trigger] ks[s[p]]) ==> s[p] < s[q]
}

/// Indices below `n`, and not negative.
pub open spec fn indices_below(s: Seq<int>, n: int) -> bool {
    forall|p: int| 0 <= p < s.len() ==> 0 <= #[trigger] s[p] < n
}

/// Inserting puts the index after the last index whose key does not sort
/// after it; all indices after it have keys that sort after it.
pub proof fn lemma_insert_shape(s: Seq<int>, i: int, ks: Seq<KeyVal>) -> (p: int)
    ensures
        0 <= p <= s.len(),
        insert_stable(s, i, ks) == s.take(p).push(i) + s.skip(p),
        forall|q: int| p <= q < s.len() ==> key_after(ks[#[trigger] s[q]], ks[i]),
        p > 0 ==> !key_after(ks[s[p - 1]], ks[i]),
    decreases s.len(),
{
    if s.len() == 0 {
        assert(s.take(0).push(i) + s.skip(0) =~= seq![i]);
        0
    } else if key_after(ks[s.last()], ks[i]) {
        let init = s.drop_last();
        let p = lemma_insert_shape(init, i, ks);
        assert(init.take(p).push(i) + init.skip(p) + seq![s.last()] =~= s.take(p).push(i) + s.skip(p));
        assert forall|q: int| p <= q < s.len() implies key_after(ks[#[trigger] s[q]], ks[i]) by {
            if q < s.len() - 1 {
                assert(s[q] == init[q]);
            }
        }
        if p > 0 {
            assert(s[p - 1] == init[p - 1]);
        }
        p
    } else {
        assert(s.take(s.len() as int).push(i) + s.skip(s.len() as int) =~= s.push(i));
        s.len() as int
    }
}

/// Inserting a new largest index into sorted indices keeps them sorted and
/// stable.
pub proof fn lemma_insert_sorted(s: Seq<int>, i: int, ks: Seq<KeyVal>)
    requires
        weak_order(ks),
        sorted_stable(s, ks),
        indices_below(s, i),
        0 <= i < ks.len(),
    ensures
        sorted_stable(insert_stable(s, i, ks), ks),
        indices_below(insert_stable(s, i, ks), i + 1),
{
    let p = lemma_insert_shape(s, i, ks);
    let r = insert_stable(s, i, ks);
    assert(r.len() == s.len() + 1);
    assert forall|q: int| 0 <= q < r.len() implies (q < p ==> r[q] == s[q]) && (q == p ==> r[q] == i) && (
    q > p ==> r[q] == s[q - 1]) by {}
    assert forall|a: int, b: int| 0 <= a < b < r.len() implies !key_after(#[trigger] ks[r[a]], #[trigger] ks[r[b]]) by {
        assert(r[a] == (if a < p { s[a] } else if a == p { i } else { s[a - 1] }));
        assert(r[b] == (if b < p { s[b] } else if b == p { i } else { s[b - 1] }));
        if b < p {
            assert(!key_after(ks[s[a]], ks[s[b]]));
        } else if b == p {
            if a < p - 1 {
                assert(!key_after(ks[s[a]], ks[s[p - 1]]));
            }
        } else if a == p {
            assert(key_after(ks[s[b - 1]], ks[i]));
            if key_after(ks[i], ks[s[b - 1]]) {
                assert(key_after(ks[i], ks[i]));
            }
        } else if a < p {
            assert(!key_after(ks[s[a]], ks[s[b - 1]]));
        } else {
            assert(!key_after(ks[s[a - 1]], ks[s[b - 1]]));
        }
    }
    assert forall|a: int, b: int|
        0 <= a < b < r.len() && !key_after(#[trigger] ks[r[b]], #[trigger] ks[r[a]]) implies r[a] < r[b] by {
        assert(r[a] == (if a < p { s[a] } else if a == p { i } else { s[a - 1] }));
        assert(r[b] == (if b < p { s[b] } else if b == p { i } else { s[b - 1] }));
        if b < p {
            assert(s[a] < s[b]);
        } else if b == p {
            assert(s[a] < i);
        } else if a == p {
            assert(key_after(ks[s[b - 1]], ks[i]));
        } else if a < p {
            assert(s[a] < s[b - 1]);
        } else {
            assert(s[a - 1] < s[b - 1]);
        }
    }
}

/// With keys in a strict weak order, sorting puts the items in key order
/// and keeps items with equal keys in their original order.
pub proof fn law_sort_sorted_stable(ks: Seq<KeyVal>, n: nat)
    requires
        weak_order(ks),
        n <= ks.len(),
    ensures
        sorted_stable(sorted_indices(ks, n), ks),
        indices_below(sorted_indices(ks, n), n as int),
    decreases n,
{
    if n > 0 {
        law_sort_sorted_stable(ks, (n - 1) as nat);
        lemma_insert_sorted(sorted_indices(ks, (n - 1) as nat), n - 1, ks);
    }
}

/// Number keys, date keys and boolean keys are in a strict weak order.
pub proof fn law_non_string_keys_weak_order(ks: Seq<KeyVal>)
    requires
        forall|i: int| 0 <= i < ks.len() ==> !(#[trigger] ks[i] is String),
        forall|i: int, j: int|
            0 <= i < ks.len() && 0 <= j < ks.len() ==> (#[trigger] ks[i] is Number == #[trigger] ks[j] is Number)
                && (ks[i] is Date == ks[j] is Date) && (ks[i] is Boolean == ks[j] is Boolean),
    ensures
        weak_order(ks),
{
    assert forall|i: int, j: int, k: int|
        0 <= i < ks.len() && 0 <= j < ks.len() && 0 <= k < ks.len() && #[trigger] key_after(ks[i], ks[j])
            && #[trigger] key_after(ks[j], ks[k]) implies key_after(ks[i], ks[k]) by {
        if ks[i] is Number {
            law_number_order(ks[k]->Number_0, ks[j]->Number_0, ks[i]->Number_0);
        }
    }
    assert forall|i: int, j: int, k: int|
        0 <= i < ks.len() && 0 <= j < ks.len() && 0 <= k < ks.len() && !#[trigger] key_after(ks[i], ks[j])
            && !#[trigger] key_after(ks[j], ks[k]) implies !key_after(ks[i], ks[k]) by {
        if ks[i] is Number {
            law_number_order(ks[i]->Number_0, ks[j]->Number_0, ks[k]->Number_0);
        }
    }
    assert forall|i: int| 0 <= i < ks.len() implies !key_after(#[trigger] ks[i], ks[i]) by {
        if ks[i] is Number {
            law_number_order(ks[i]->Number_0, ks[i]->Number_0, ks[i]->Number_0);
        }
    }
}


/// `a && b` is false without looking at `b` when `a` is false.
pub proof fn law_and_short_circuit(vars: Seq<(Seq<char>, Val)>, classic: bool, a: Expr, b: Expr, span: Span)
    requires
        eval_val(vars, classic, a) == Ok::<Val, Fail>(Val::Boolean(false)),
    ensures
        eval_val(vars, classic, Expr { kind: ExprKind::And(Box::new(a), Box::new(b)), span })
            == Ok::<Val, Fail>(Val::Boolean(false)),
{
}

/// `a || b` is true without looking at `b` when `a` is true.
pub proof fn law_or_short_circuit(vars: Seq<(Seq<char>, Val)>, classic: bool, a: Expr, b: Expr, span: Span)
    requires
        eval_val(vars, classic, a) == Ok::<Val, Fail>(Val::Boolean(true)),
    ensures
        eval_val(vars, classic, Expr { kind: ExprKind::Or(Box::new(a), Box::new(b)), span })
            == Ok::<Val, Fail>(Val::Boolean(true)),
{
}

/// `!!x` is `x` when `x` is a boolean.
pub proof fn law_double_negation(vars: Seq<(Seq<char>, Val)>, classic: bool, x: Expr, span: Span, b: bool)
    requires
        eval_val(vars, classic, x) == Ok::<Val, Fail>(Val::Boolean(b)),
    ensures
        eval_val(
            vars,
            classic,
            Expr { kind: ExprKind::Not(Box::new(Expr { kind: ExprKind::Not(Box::new(x)), span })), span },
        ) == Ok::<Val, Fail>(Val::Boolean(b)),
{
    let inner = Expr { kind: ExprKind::Not(Box::new(x)), span };
    assert(eval_val(vars, classic, inner) == Ok::<Val, Fail>(Val::Boolean(!b)));
}

/// `x!d` is the value of `x` whenever that is not null, whatever `d` is;
/// and `x??` is true exactly then, while `x!` without a default is the
/// empty string otherwise.
pub proof fn law_default_and_exists(vars: Seq<(Seq<char>, Val)>, classic: bool, x: Expr, d: Option<Box<Expr>>, span: Span)
    ensures
        match lenient_val(vars, classic, x) {
            Ok(v) => {
                &&& eval_val(vars, classic, Expr { kind: ExprKind::Exists(Box::new(x)), span })
                    == Ok::<Val, Fail>(Val::Boolean(!(v is Nothing)))
                &&& !(v is Nothing) ==> eval_val(
                    vars,
                    classic,
                    Expr { kind: ExprKind::Default { target: Box::new(x), default: d }, span },
                ) == Ok::<Val, Fail>(v)
                &&& v is Nothing ==> eval_val(
                    vars,
                    classic,
                    Expr { kind: ExprKind::Default { target: Box::new(x), default: None }, span },
                ) == Ok::<Val, Fail>(Val::Scalar(Seq::empty()))
            },
            Err(f) => eval_val(vars, classic, Expr { kind: ExprKind::Exists(Box::new(x)), span }) == Err::<
                Val,
                Fail,
            >(f),
        },
{
}

/// `?take_while` and `?drop_while` with the same lambda over the same items:
/// both fail or neither does, and then what the first keeps followed by
/// what the second keeps is every item, in order.
proof fn lemma_take_drop_fold(
    vars: Seq<(Seq<char>, Val)>,
    classic: bool,
    param: Option<Seq<char>>,
    body: Expr,
    items: Seq<Val>,
    n: nat,
)
    requires
        n <= items.len(),
    ensures
        ({
            let t = lambda_fold(vars, classic, "take_while"@, param, body, items, n);
            let d = lambda_fold(vars, classic, "drop_while"@, param, body, items, n);
            &&& (t is Ok <==> d is Ok)
            &&& t is Ok ==> {
                &&& t->Ok_0.out + d->Ok_0.out == items.take(n as int)
                &&& t->Ok_0.done == d->Ok_0.done
                &&& !d->Ok_0.done ==> d->Ok_0.out.len() == 0
            }
        }),
    decreases n,
{
    reveal_strlit("take_while");
    reveal_strlit("drop_while");
    reveal_strlit("map");
    reveal_strlit("filter");
    assert("take_while"@.len() == 10);
    assert("drop_while"@.len() == 10);
    assert("map"@.len() == 3);
    assert("filter"@.len() == 6);
    assert("take_while"@[0] != "drop_while"@[0]);
    if n > 0 {
        lemma_take_drop_fold(vars, classic, param, body, items, (n - 1) as nat);
        let t = lambda_fold(vars, classic, "take_while"@, param, body, items, (n - 1) as nat);
        let d = lambda_fold(vars, classic, "drop_while"@, param, body, items, (n - 1) as nat);
        if t is Ok {
            let ts = t->Ok_0;
            let ds = d->Ok_0;
            let item = items[n - 1];
            assert(lambda_fold(vars, classic, "take_while"@, param, body, items, n) == crate::eval::lambda_step(
                vars,
                classic,
                "take_while"@,
                param,
                body,
                item,
                ts,
            ));
            assert(lambda_fold(vars, classic, "drop_while"@, param, body, items, n) == crate::eval::lambda_step(
                vars,
                classic,
                "drop_while"@,
                param,
                body,
                item,
                ds,
            ));
            assert(items.take(n as int) =~= items.take(n - 1).push(item));
            assert((ts.out + ds.out).push(item) =~= ts.out + ds.out.push(item));
            if ds.out.len() == 0 {
                assert(ts.out + ds.out =~= ts.out);
                assert(ts.out.push(item) + ds.out =~= ts.out.push(item));
            }
        }
    } else {
        assert(items.take(0) =~= Seq::<Val>::empty());
        assert(Seq::<Val>::empty() + Seq::<Val>::empty() =~= Seq::<Val>::empty());
    }
}

/// A call of `?filter`, `?map`, `?take_while` or `?drop_while` is valued as
/// the lambda built-ins are.
proof fn lemma_lambda_dispatch(vars: Seq<(Seq<char>, Val)>, classic: bool, e: Expr)
    requires
        e.kind matches ExprKind::BuiltIn { name, .. } && crate::eval::is_lambda_builtin(name@),
    ensures
        eval_val(vars, classic, e) == lambda_val(vars, classic, e),
{
    lemma_lambda_name(e.kind->BuiltIn_name@);
    assert(eval_val(vars, classic, e) == crate::eval::builtin_val(vars, classic, e));
}

/// The names of the lambda built-ins are none of the names tested before
/// them.
proof fn lemma_lambda_name(bi: Seq<char>)
    requires
        crate::eval::is_lambda_builtin(bi),
    ensures
        bi != "exists"@,
        bi != "default"@,
        !crate::eval::is_type_test(bi),
        !crate::eval::is_target_only(bi),
        bi != "seq_contains"@,
        bi != "seq_index_of"@,
        bi != "seq_last_index_of"@,
        bi != "chunk"@,
{
    reveal_strlit("filter");
    assert("filter"@.len() == 6);
    reveal_strlit("map");
    assert("map"@.len() == 3);
    reveal_strlit("take_while");
    assert("take_while"@.len() == 10);
    reveal_strlit("drop_while");
    assert("drop_while"@.len() == 10);
    reveal_strlit("exists");
    assert("exists"@.len() == 6);
    reveal_strlit("default");
    assert("default"@.len() == 7);
    reveal_strlit("is_string");
    assert("is_string"@.len() == 9);
    reveal_strlit("is_number");
    assert("is_number"@.len() == 9);
    reveal_strlit("is_boolean");
    assert("is_boolean"@.len() == 10);
    reveal_strlit("is_date");
    assert("is_date"@.len() == 7);
    reveal_strlit("is_hash");
    assert("is_hash"@.len() == 7);
    reveal_strlit("size");
    assert("size"@.len() == 4);
    reveal_strlit("first");
    assert("first"@.len() == 5);
    reveal_strlit("last");
    assert("last"@.len() == 4);
    reveal_strlit("reverse");
    assert("reverse"@.len() == 7);
    reveal_strlit("length");
    assert("length"@.len() == 6);
    reveal_strlit("sequence");
    assert("sequence"@.len() == 8);
    reveal_strlit("sort");
    assert("sort"@.len() == 4);
    reveal_strlit("min");
    assert("min"@.len() == 3);
    reveal_strlit("max");
    assert("max"@.len() == 3);
    reveal_strlit("seq_contains");
    assert("seq_contains"@.len() == 12);
    reveal_strlit("seq_index_of");
    assert("seq_index_of"@.len() == 12);
    reveal_strlit("seq_last_index_of");
    assert("seq_last_index_of"@.len() == 17);
    reveal_strlit("chunk");
    assert("chunk"@.len() == 5);
    assert("filter"@[0] != "exists"@[0]);
    assert("filter"@[0] != "length"@[0]);
    assert("map"@[1] != "min"@[1]);
    assert("map"@[2] != "max"@[2]);
    assert("take_while"@[0] != "is_boolean"@[0]);
    assert("drop_while"@[0] != "is_boolean"@[0]);
}

/// `xs?take_while(f)` followed by `xs?drop_while(f)` gives back `xs`: when
/// one of the two fails so does the other, and when both succeed their
/// items together are the items of the target, in order.
pub proof fn law_take_while_then_drop_while(
    vars: Seq<(Seq<char>, Val)>,
    classic: bool,
    target: Expr,
    take: String,
    drop: String,
    args: Vec<Expr>,
    span: Span,
)
    requires
        take@ == "take_while"@,
        drop@ == "drop_while"@,
    ensures
        ({
            let t = eval_val(
                vars,
                classic,
                Expr { kind: ExprKind::BuiltIn { target: Box::new(target), name: take, args: Some(args) }, span },
            );
            let d = eval_val(
                vars,
                classic,
                Expr { kind: ExprKind::BuiltIn { target: Box::new(target), name: drop, args: Some(args) }, span },
            );
            &&& (t is Ok <==> d is Ok)
            &&& t is Ok ==> {
                &&& t->Ok_0 matches Val::Sequence(a)
                &&& d->Ok_0 matches Val::Sequence(b)
                &&& eval_val(vars, classic, target) matches Ok(v)
                &&& crate::sequences::seq_items(v) == Some(a + b)
            }
        }),
{
    reveal_strlit("take_while");
    reveal_strlit("drop_while");
    let et = Expr { kind: ExprKind::BuiltIn { target: Box::new(target), name: take, args: Some(args) }, span };
    let ed = Expr { kind: ExprKind::BuiltIn { target: Box::new(target), name: drop, args: Some(args) }, span };
    lemma_lambda_dispatch(vars, classic, et);
    lemma_lambda_dispatch(vars, classic, ed);
    if args@.len() == 1 {
        match args@[0].kind {
            ExprKind::Lambda { params, body } => {
                match eval_val(vars, classic, target) {
                    Ok(v) => match crate::sequences::seq_items(v) {
                        Some(items) => {
                            let p = if params@.len() > 0 { Some(params@[0]@) } else { None };
                            lemma_take_drop_fold(vars, classic, p, *body, items, items.len());
                            assert(items.take(items.len() as int) =~= items);
                        },
                        None => {},
                    },
                    Err(_) => {},
                }
            },
            _ => {},
        }
    }
}


/// Through `?map` every item gives exactly one item, and through `?filter`
/// each item gives at most one.
proof fn lemma_map_filter_fold(
    vars: Seq<(Seq<char>, Val)>,
    classic: bool,
    param: Option<Seq<char>>,
    body: Expr,
    items: Seq<Val>,
    n: nat,
)
    requires
        n <= items.len(),
    ensures
        lambda_fold(vars, classic, "map"@, param, body, items, n) matches Ok(st) ==> st.out.len() == n
            && !st.done,
        lambda_fold(vars, classic, "filter"@, param, body, items, n) matches Ok(st) ==> st.out.len() <= n
            && !st.done,
    decreases n,
{
    reveal_strlit("take_while");
    reveal_strlit("drop_while");
    reveal_strlit("map");
    reveal_strlit("filter");
    assert("take_while"@.len() == 10);
    assert("drop_while"@.len() == 10);
    assert("map"@.len() == 3);
    assert("filter"@.len() == 6);
    if n > 0 {
        lemma_map_filter_fold(vars, classic, param, body, items, (n - 1) as nat);
        let pm = lambda_fold(vars, classic, "map"@, param, body, items, (n - 1) as nat);
        if pm is Ok {
            assert(lambda_fold(vars, classic, "map"@, param, body, items, n) == crate::eval::lambda_step(
                vars,
                classic,
                "map"@,
                param,
                body,
                items[n - 1],
                pm->Ok_0,
            ));
        }
        let pf = lambda_fold(vars, classic, "filter"@, param, body, items, (n - 1) as nat);
        if pf is Ok {
            assert(lambda_fold(vars, classic, "filter"@, param, body, items, n) == crate::eval::lambda_step(
                vars,
                classic,
                "filter"@,
                param,
                body,
                items[n - 1],
                pf->Ok_0,
            ));
        }
    }
}

/// `xs?map(f)`, when it succeeds, has as many items as `xs`; `xs?filter(f)`
/// has at most as many.
pub proof fn law_map_keeps_length(
    vars: Seq<(Seq<char>, Val)>,
    classic: bool,
    target: Expr,
    name: String,
    args: Vec<Expr>,
    span: Span,
)
    requires
        name@ == "map"@ || name@ == "filter"@,
    ensures
        eval_val(
            vars,
            classic,
            Expr { kind: ExprKind::BuiltIn { target: Box::new(target), name, args: Some(args) }, span },
        ) matches Ok(r) ==> {
            &&& r matches Val::Sequence(out)
            &&& eval_val(vars, classic, target) matches Ok(v)
            &&& crate::sequences::seq_items(v) matches Some(items)
            &&& (name@ == "map"@ ==> out.len() == items.len())
            &&& out.len() <= items.len()
        },
{
    reveal_strlit("map");
    reveal_strlit("filter");
    let e = Expr { kind: ExprKind::BuiltIn { target: Box::new(target), name, args: Some(args) }, span };
    lemma_lambda_dispatch(vars, classic, e);
    if args@.len() == 1 {
        match args@[0].kind {
            ExprKind::Lambda { params, body } => {
                match eval_val(vars, classic, target) {
                    Ok(v) => match crate::sequences::seq_items(v) {
                        Some(items) => {
                            let p = if params@.len() > 0 { Some(params@[0]@) } else { None };
                            lemma_map_filter_fold(vars, classic, p, *body, items, items.len());
                        },
                        None => {},
                    },
                    Err(_) => {},
                }
            },
            _ => {},
        }
    }
}

/// `xs[i]` with `xs` a sequence and `i` a number: the item at `i` truncated
/// toward zero, null past the end, and a missing-value error below zero;
/// `s[i]` with `s` a string: the one-character string at `i`, an error past
/// the end or below zero.
pub proof fn law_index_into_sequence_or_string(
    vars: Seq<(Seq<char>, Val)>,
    classic: bool,
    target: Expr,
    key: Expr,
    span: Span,
    n: crate::number::TNumber,
)
    requires
        eval_val(vars, classic, key) == Ok::<Val, Fail>(Val::Number(n)),
    ensures
        ({
            let i = n.truncated();
            let r = eval_val(vars, classic, Expr { kind: ExprKind::DynKey { target: Box::new(target), key: Box::new(key) }, span });
            &&& eval_val(vars, classic, target) matches Ok(Val::Sequence(items)) ==> r == if i < 0 {
                Err::<Val, Fail>(Fail::Missing(crate::describe::desc(target) + "["@ + crate::describe::desc(key) + "]"@))
            } else if i < items.len() {
                Ok::<Val, Fail>(items[i])
            } else {
                Ok::<Val, Fail>(Val::Nothing)
            }
            &&& eval_val(vars, classic, target) matches Ok(Val::Scalar(s)) ==> r == if i < 0 {
                Err::<Val, Fail>(Fail::Msg("Negative index not allowed: "@ + crate::text::int_text(i)))
            } else if i < s.len() {
                Ok::<Val, Fail>(Val::Scalar(seq![s[i]]))
            } else {
                Err::<Val, Fail>(Fail::Msg(crate::eval::string_index_msg(i, s.len() as int)))
            }
        }),
{
}

/// The last UTF-16 unit of a character is a low surrogate exactly when the
/// character lies above the Basic Multilingual Plane, and the units give
/// the character back.
proof fn lemma_char_utf16_decodes(c: char, d: char)
    ensures
        char_utf16(c).len() >= 1,
        (0xDC00 <= char_utf16(c).last() <= 0xDFFF) <==> (c as u32) >= 0x10000,
        char_utf16(c).len() == (if (c as u32) < 0x10000 { 1int } else { 2int }),
        char_utf16(c) == char_utf16(d) ==> c == d,
{
    let v = c as u32;
    let u = d as u32;
    if v >= 0x10000 {
        let w = (v - 0x10000) as u32;
        assert(w / 0x400 <= 0x3FF);
        assert(w % 0x400 <= 0x3FF);
    }
    if char_utf16(c) == char_utf16(d) {
        if v < 0x10000 && u < 0x10000 {
            assert(char_utf16(c)[0] == char_utf16(d)[0]);
        } else if v >= 0x10000 && u >= 0x10000 {
            let w = (v - 0x10000) as u32;
            let x = (u - 0x10000) as u32;
            assert(w / 0x400 <= 0x3FF && x / 0x400 <= 0x3FF);
            assert(char_utf16(c)[0] == char_utf16(d)[0]);
            assert(char_utf16(c)[1] == char_utf16(d)[1]);
            assert(w / 0x400 == x / 0x400);
            assert(w % 0x400 == x % 0x400);
            assert(w == 0x400 * (w / 0x400) + w % 0x400);
            assert(x == 0x400 * (x / 0x400) + x % 0x400);
        } else {
            assert(char_utf16(c).len() != char_utf16(d).len());
        }
        assert(v == u);
    }
}

/// Different texts have different UTF-16 units.
pub proof fn lemma_utf16_units_injective(a: Seq<char>, b: Seq<char>)
    requires
        utf16_units(a) == utf16_units(b),
    ensures
        a == b,
    decreases a.len(),
{
    if a.len() == 0 || b.len() == 0 {
        if a.len() > 0 {
            crate::text::lemma_utf16_units_nonempty(a);
        }
        if b.len() > 0 {
            crate::text::lemma_utf16_units_nonempty(b);
        }
        assert(a =~= b);
    } else {
        let ca = char_utf16(a.last());
        let cb = char_utf16(b.last());
        let pa = utf16_units(a.drop_last());
        let pb = utf16_units(b.drop_last());
        lemma_char_utf16_decodes(a.last(), b.last());
        lemma_char_utf16_decodes(b.last(), a.last());
        let ua = utf16_units(a);
        assert(ua == pa + ca);
        assert(ua == pb + cb);
        assert(ua.last() == ca.last());
        assert(ua.last() == cb.last());
        assert(ca.len() == cb.len());
        assert(pa =~= ua.take(ua.len() - ca.len()));
        assert(pb =~= ua.take(ua.len() - cb.len()));
        assert(ca =~= ua.skip(ua.len() - ca.len()));
        assert(cb =~= ua.skip(ua.len() - cb.len()));
        lemma_utf16_units_injective(a.drop_last(), b.drop_last());
        assert(a =~= a.drop_last().push(a.last()));
        assert(b =~= b.drop_last().push(b.last()));
    }
}

/// `==` and `!=` on two strings compare their NFKC normal forms as texts:
/// equal exactly when the normal forms are the same characters; the
/// ordering operators are refused on strings.
pub proof fn law_string_equality(a: Seq<char>, b: Seq<char>, op: CmpOp)
    ensures
        op == CmpOp::Eq ==> compare_result(Val::Scalar(a), Val::Scalar(b), op) == Ok::<bool, Seq<char>>(
            nfkc(a) == nfkc(b),
        ),
        op == CmpOp::NotEq ==> compare_result(Val::Scalar(a), Val::Scalar(b), op) == Ok::<bool, Seq<char>>(
            nfkc(a) != nfkc(b),
        ),
        !(op == CmpOp::Eq || op == CmpOp::NotEq) ==> compare_result(Val::Scalar(a), Val::Scalar(b), op)
            == Err::<bool, Seq<char>>(crate::compare::cant_use_op_msg(crate::compare::op_text(op), "string"@)),
{
    let x = nfkc(a);
    let y = nfkc(b);
    law_units_order_antisymmetric(utf16_units(x), utf16_units(y));
    if utf16_units(x) == utf16_units(y) {
        lemma_utf16_units_injective(x, y);
    }
}

/// What `<#setting>` sets, the built-in variables read back: after
/// `<#setting locale=v>` `.locale` is `v`, after `<#setting time_zone=v>`
/// (not `default`) `.time_zone` is the zone id of `v`, and after
/// `<#setting output_format=v>` `.output_format` is the name of the format
/// `v` names.
pub proof fn law_setting_then_variable(
    s: crate::template_settings::SettingsView,
    key: Seq<char>,
    v: Seq<char>,
    base: crate::setting_directive::ZoneValue,
    base_id: Seq<char>,
)
    requires
        crate::setting_directive::setting_change(key, v) is Ok,
    ensures
        ({
            let c = crate::setting_directive::setting_change(key, v)->Ok_0;
            let t = crate::template_settings::applied(s, c, base, base_id);
            &&& key == "locale"@ ==> crate::template_settings::settings_variable(
                crate::ast::BuiltinVar::Locale,
                t,
            ) == Some(Val::Scalar(v))
            &&& key == "time_zone"@ && v != "default"@ ==> crate::template_settings::settings_variable(
                crate::ast::BuiltinVar::TimeZone,
                t,
            ) == Some(Val::Scalar(crate::time_zone::java_zone_id(v)))
            &&& key == "output_format"@ ==> crate::template_settings::settings_variable(
                crate::ast::BuiltinVar::OutputFormat,
                t,
            ) == Some(Val::Scalar(crate::output_format::format_name(
                crate::output_format::parse_format_name(v)->Some_0,
            )))
        }),
{
    reveal_strlit("locale");
    assert("locale"@.len() == 6);
    reveal_strlit("number_format");
    assert("number_format"@.len() == 13);
    reveal_strlit("boolean_format");
    assert("boolean_format"@.len() == 14);
    reveal_strlit("date_format");
    assert("date_format"@.len() == 11);
    reveal_strlit("time_format");
    assert("time_format"@.len() == 11);
    reveal_strlit("datetime_format");
    assert("datetime_format"@.len() == 15);
    reveal_strlit("output_encoding");
    assert("output_encoding"@.len() == 15);
    reveal_strlit("url_escaping_charset");
    assert("url_escaping_charset"@.len() == 20);
    reveal_strlit("time_zone");
    assert("time_zone"@.len() == 9);
    reveal_strlit("sql_date_and_time_time_zone");
    assert("sql_date_and_time_time_zone"@.len() == 27);
    reveal_strlit("classic_compatible");
    assert("classic_compatible"@.len() == 18);
    reveal_strlit("whitespace_stripping");
    assert("whitespace_stripping"@.len() == 20);
    reveal_strlit("strict_syntax");
    assert("strict_syntax"@.len() == 13);
    reveal_strlit("output_format");
    assert("output_format"@.len() == 13);
    assert("output_format"@[0] != "number_format"@[0]);
    assert("output_format"@[0] != "strict_syntax"@[0]);
}

/// The tertiary order of code units is `Equal` exactly on equal units.
proof fn lemma_tertiary_equal(a: Seq<u16>, b: Seq<u16>)
    ensures
        (crate::collation::tertiary_order(a, b) == std::cmp::Ordering::Equal) == (a == b),
    decreases a.len(),
{
    if a.len() > 0 && b.len() > 0 && a[0] == b[0] {
        lemma_tertiary_equal(a.drop_first(), b.drop_first());
        if a.drop_first() == b.drop_first() {
            assert(a =~= seq![a[0]] + a.drop_first());
            assert(b =~= seq![b[0]] + b.drop_first());
        }
        if a == b {
            assert(a.drop_first() =~= b.drop_first());
        }
    } else if a.len() == 0 && b.len() == 0 {
        assert(a =~= b);
    } else if a.len() > 0 && b.len() > 0 {
        assert(a[0] != b[0]);
    }
}

/// The collator used by `?sort` orders two strings as equal exactly when
/// they are the same string.
pub proof fn law_collator_equal_only_on_equal(a: Seq<char>, b: Seq<char>)
    ensures
        (crate::collation::collator_order(a, b) == std::cmp::Ordering::Equal) == (a == b),
{
    law_units_order_antisymmetric(crate::collation::sort_key(a), crate::collation::sort_key(b));
    lemma_tertiary_equal(utf16_units(a), utf16_units(b));
    if utf16_units(a) == utf16_units(b) {
        lemma_utf16_units_injective(a, b);
    }
}

/// Whether a character entity (`&lt;`, `&gt;`, `&amp;`, `&quot;`, `&#39;`
/// or `&apos;`) starts at index `i` of a text.
pub open spec fn entity_at(t: Seq<char>, i: int) -> bool {
    let r = t.skip(i);
    ||| crate::text::has_prefix(r, "&lt;"@)
    ||| crate::text::has_prefix(r, "&gt;"@)
    ||| crate::text::has_prefix(r, "&amp;"@)
    ||| crate::text::has_prefix(r, "&quot;"@)
    ||| crate::text::has_prefix(r, "&#39;"@)
    ||| crate::text::has_prefix(r, "&apos;"@)
}

/// Whether a text is safe markup: no raw `<`, `>`, `"` or `'`, and every
/// `&` starts a character entity.
pub open spec fn markup_safe(t: Seq<char>) -> bool {
    forall|i: int|
        0 <= i < t.len() ==> #[trigger] t[i] != '<' && t[i] != '>' && t[i] != '"' && t[i] != '\''
            && (t[i] == '&' ==> entity_at(t, i))
}

/// An entity still starts at the same place once text is appended.
proof fn lemma_entity_at_append(a: Seq<char>, b: Seq<char>, i: int)
    requires
        0 <= i < a.len(),
        entity_at(a, i),
    ensures
        entity_at(a + b, i),
{
    let r = a.skip(i);
    let r2 = (a + b).skip(i);
    assert forall|n: int| 0 <= n <= r.len() implies r2.take(n) =~= r.take(n) by {
        assert forall|j: int| 0 <= j < n implies r2.take(n)[j] == r.take(n)[j] by {
            assert(r2[j] == (a + b)[i + j]);
        }
    }
}

/// Appending safe markup to safe markup gives safe markup.
proof fn lemma_markup_safe_append(a: Seq<char>, b: Seq<char>)
    requires
        markup_safe(a),
        markup_safe(b),
    ensures
        markup_safe(a + b),
{
    let t = a + b;
    assert forall|i: int| 0 <= i < t.len() implies #[trigger] t[i] != '<' && t[i] != '>' && t[i] != '"'
        && t[i] != '\'' && (t[i] == '&' ==> entity_at(t, i)) by {
        if i < a.len() {
            assert(t[i] == a[i]);
            if a[i] == '&' {
                lemma_entity_at_append(a, b, i);
            }
        } else {
            assert(t[i] == b[i - a.len()]);
            if b[i - a.len()] == '&' {
                assert(t.skip(i) =~= b.skip(i - a.len()));
            }
        }
    }
}

/// The escape of one character in HTML, XHTML or XML output is safe markup.
proof fn lemma_escape_char_safe(k: OutputFormatKind, c: char)
    requires
        k == OutputFormatKind::Html || k == OutputFormatKind::XHtml || k == OutputFormatKind::Xml,
    ensures
        markup_safe(escape_char(k, c)),
{
    reveal_strlit("&lt;");
    reveal_strlit("&gt;");
    reveal_strlit("&amp;");
    reveal_strlit("&quot;");
    reveal_strlit("&#39;");
    reveal_strlit("&apos;");
    let t = escape_char(k, c);
    if t.len() > 1 {
        assert(t.skip(0) =~= t);
        assert(t.take(t.len() as int) =~= t);
    }
}

/// Plain text escaped for HTML, XHTML or XML output is safe markup: no raw
/// `<`, `>`, `"` or `'` is left, and every `&` starts a character entity
/// (a raw `&` always becomes `&amp;`).
pub proof fn law_markup_escaping_is_safe(k: OutputFormatKind, s: Seq<char>)
    requires
        k == OutputFormatKind::Html || k == OutputFormatKind::XHtml || k == OutputFormatKind::Xml,
    ensures
        markup_safe(escape_text(k, s)),
    decreases s.len(),
{
    if s.len() > 0 {
        law_markup_escaping_is_safe(k, s.drop_last());
        lemma_escape_char_safe(k, s.last());
        lemma_markup_safe_append(escape_text(k, s.drop_last()), escape_char(k, s.last()));
    }
}

/// Splitting never gives an empty list of pieces.
proof fn lemma_split_on_nonempty(s: Seq<char>, d: char)
    ensures
        crate::text::split_on(s, d).len() >= 1,
    decreases s.len(),
{
    if s.len() > 0 {
        lemma_split_on_nonempty(s.drop_last(), d);
    }
}

/// A text without the separator is one piece.
proof fn lemma_split_on_whole(s: Seq<char>, d: char)
    requires
        forall|i: int| 0 <= i < s.len() ==> s[i] != d,
    ensures
        crate::text::split_on(s, d) == seq![s],
    decreases s.len(),
{
    if s.len() > 0 {
        lemma_split_on_whole(s.drop_last(), d);
        assert(s.drop_last().push(s.last()) =~= s);
        let r = seq![s.drop_last()];
        assert(r.len() == 1);
        assert(r.last() == s.drop_last());
        assert(r.update(0, s) =~= seq![s]);
    } else {
        assert(s =~= Seq::<char>::empty());
    }
}

/// Splitting at a separator between two texts splits each of them.
proof fn lemma_split_on_join(u: Seq<char>, v: Seq<char>, d: char)
    ensures
        crate::text::split_on(u + seq![d] + v, d) == crate::text::split_on(u, d) + crate::text::split_on(v, d),
    decreases v.len(),
{
    let w = u + seq![d] + v;
    if v.len() == 0 {
        assert(w.drop_last() =~= u);
        assert(crate::text::split_on(v, d) =~= seq![Seq::<char>::empty()]);
        assert(crate::text::split_on(u, d).push(Seq::<char>::empty()) =~= crate::text::split_on(u, d) + seq![
            Seq::<char>::empty(),
        ]);
    } else {
        lemma_split_on_join(u, v.drop_last(), d);
        assert(w.drop_last() =~= u + seq![d] + v.drop_last());
        assert(w.last() == v.last());
        lemma_split_on_nonempty(v.drop_last(), d);
        let a = crate::text::split_on(u, d);
        let b = crate::text::split_on(v.drop_last(), d);
        if v.last() == d {
            assert((a + b).push(Seq::<char>::empty()) =~= a + b.push(Seq::<char>::empty()));
        } else {
            let ab = a + b;
            assert(ab.update(ab.len() - 1, ab.last().push(v.last())) =~= a + b.update(
                b.len() - 1,
                b.last().push(v.last()),
            ));
        }
    }
}

/// A segment that names a directory: not empty, `.` or `..`.
pub open spec fn plain_segment(x: Seq<char>) -> bool {
    x.len() > 0 && x != "."@ && x != ".."@ && forall|i: int| 0 <= i < x.len() ==> x[i] != '/'
}

/// Segments normalized alike stay normalized alike whatever follows.
proof fn lemma_norm_same_suffix(p: Seq<Seq<char>>, q: Seq<Seq<char>>, b: Seq<Seq<char>>)
    requires
        crate::paths::norm_segments(p) == crate::paths::norm_segments(q),
    ensures
        crate::paths::norm_segments(p + b) == crate::paths::norm_segments(q + b),
    decreases b.len(),
{
    if b.len() > 0 {
        lemma_norm_same_suffix(p, q, b.drop_last());
        assert((p + b).drop_last() =~= p + b.drop_last());
        assert((q + b).drop_last() =~= q + b.drop_last());
        assert((p + b).last() == b.last());
        assert((q + b).last() == b.last());
    } else {
        assert(p + b =~= p);
        assert(q + b =~= q);
    }
}

/// `x/..` cancels: after any segments `a`, a plain segment followed by `..`
/// normalizes as if both were absent, whatever follows.
pub proof fn law_parent_segment_cancels(a: Seq<Seq<char>>, x: Seq<char>, b: Seq<Seq<char>>)
    requires
        plain_segment(x),
    ensures
        crate::paths::norm_segments(a + seq![x, ".."@] + b) == crate::paths::norm_segments(a + b),
{
    reveal_strlit(".");
    reveal_strlit("..");
    let p = a + seq![x, ".."@];
    assert(p.drop_last() =~= a.push(x));
    assert(a.push(x).drop_last() =~= a);
    assert(p.last() == ".."@);
    assert(a.push(x).last() == x);
    assert(x != Seq::<char>::empty());
    let n = crate::paths::norm_segments(a);
    assert(crate::paths::norm_segments(a.push(x)) == n.push(x));
    assert(n.push(x).drop_last() =~= n);
    assert(crate::paths::norm_segments(p) == n);
    lemma_norm_same_suffix(p, a, b);
}

/// A template path with `x/../` in it names the same template as the path
/// without it: normalizing `base/x/../rest` gives what normalizing
/// `base/rest` gives, for a directory name `x` (so `a/b/../c.ftl` is
/// `a/c.ftl`).
pub proof fn law_normalized_path_cancels_parent(base: Seq<char>, x: Seq<char>, rest: Seq<char>)
    requires
        plain_segment(x),
    ensures
        crate::paths::normalized_path(base + "/"@ + x + "/../"@ + rest) == crate::paths::normalized_path(
            base + "/"@ + rest,
        ),
{
    reveal_strlit("/");
    reveal_strlit("/../");
    reveal_strlit("..");
    let dd: Seq<char> = ".."@;
    assert(dd =~= seq!['.', '.']);
    let long = base + "/"@ + x + "/../"@ + rest;
    assert(long =~= base + seq!['/'] + (x + seq!['/'] + (dd + seq!['/'] + rest)));
    lemma_split_on_join(base, x + seq!['/'] + (dd + seq!['/'] + rest), '/');
    lemma_split_on_join(x, dd + seq!['/'] + rest, '/');
    lemma_split_on_join(dd, rest, '/');
    lemma_split_on_whole(x, '/');
    lemma_split_on_whole(dd, '/');
    let short = base + "/"@ + rest;
    assert(short =~= base + seq!['/'] + rest);
    lemma_split_on_join(base, rest, '/');
    let sa = crate::text::split_on(base, '/');
    let sb = crate::text::split_on(rest, '/');
    assert(crate::text::split_on(long, '/') =~= sa + seq![x, dd] + sb);
    law_parent_segment_cancels(sa, x, sb);
}

/// A path that starts with `x/../` names the template that the rest names.
pub proof fn law_normalized_path_leading_parent(x: Seq<char>, rest: Seq<char>)
    requires
        plain_segment(x),
    ensures
        crate::paths::normalized_path(x + "/../"@ + rest) == crate::paths::normalized_path(rest),
{
    reveal_strlit("/../");
    reveal_strlit("..");
    let dd: Seq<char> = ".."@;
    assert(dd =~= seq!['.', '.']);
    assert(x + "/../"@ + rest =~= x + seq!['/'] + (dd + seq!['/'] + rest));
    lemma_split_on_join(x, dd + seq!['/'] + rest, '/');
    lemma_split_on_join(dd, rest, '/');
    lemma_split_on_whole(x, '/');
    lemma_split_on_whole(dd, '/');
    let sb = crate::text::split_on(rest, '/');
    let e = Seq::<Seq<char>>::empty();
    assert(crate::text::split_on(x + "/../"@ + rest, '/') =~= e + seq![x, dd] + sb);
    assert(e + sb =~= sb);
    law_parent_segment_cancels(e, x, sb);
}

/// `<#include "../t">` from the template `d/f` (a file in directory `d`)
/// names the template that `t` normalizes to: the `..` leaves `d`.
pub proof fn law_resolve_parent_directory(d: Seq<char>, f: Seq<char>, t: Seq<char>)
    requires
        plain_segment(d),
        forall|i: int| 0 <= i < f.len() ==> f[i] != '/',
        !crate::text::contains_seq("../"@ + t, "://"@),
    ensures
        crate::paths::resolved_name(d + "/"@ + f, "../"@ + t) == crate::paths::normalized_path(t),
{
    reveal_strlit("/");
    reveal_strlit("../");
    reveal_strlit("/../");
    let base = d + "/"@ + f;
    let target = "../"@ + t;
    assert(target[0] == '.');
    assert(!crate::text::has_prefix(target, "/"@)) by {
        if crate::text::has_prefix(target, "/"@) {
            assert(target.take(1)[0] == '/');
        }
    }
    crate::text::lemma_last_index_of(base, '/');
    assert(base[d.len() as int] == '/');
    let i = crate::text::last_index_of(base, '/')->Some_0;
    assert(i == d.len()) by {
        if i > d.len() {
            assert(base[i] == f[i - d.len() - 1]);
        }
    }
    assert(base.take(i) =~= d);
    assert(d + "/"@ + target =~= d + "/../"@ + t);
    law_normalized_path_leading_parent(d, t);
}

/// `?right_pad` keeps the text as a prefix and `?left_pad` keeps it as a
/// suffix, and what one adds after the text the other adds before it:
/// `s?left_pad(w, f)` is `p + s` and `s?right_pad(w, f)` is `s + p` for the
/// same padding `p`, which is empty when the text is already `w` units long.
pub proof fn law_pad_sides(s: Seq<char>, width: nat, filling: Seq<char>)
    ensures
        ({
            let l = crate::strings::padded_text(s, width, filling, true);
            let r = crate::strings::padded_text(s, width, filling, false);
            &&& l.len() == r.len() && r.len() >= s.len()
            &&& r.take(s.len() as int) == s
            &&& l.skip(l.len() - s.len()) == s
            &&& r.skip(s.len() as int) == l.take(l.len() - s.len())
            &&& width <= crate::text::utf16_units(s).len() ==> l == s && r == s
        }),
{
    let n = crate::text::utf16_units(s).len();
    if width <= n {
        assert(s.take(s.len() as int) =~= s);
        assert(s.skip(0) =~= s);
        assert(s.skip(s.len() as int) =~= s.take(0));
    } else {
        let p = crate::strings::utf16_decoded(crate::strings::pad_units(crate::text::utf16_units(filling), (width - n) as nat));
        assert((s + p).take(s.len() as int) =~= s);
        assert((p + s).skip(p.len() as int) =~= s);
        assert((s + p).skip(s.len() as int) =~= p);
        assert((p + s).take(p.len() as int) =~= p);
    }
}

/// When the text is padded, the left and right results have the text at
/// opposite ends: `?right_pad` starts with it, `?left_pad` ends with it.
pub proof fn law_pad_keeps_text(s: Seq<char>, width: nat, filling: Seq<char>)
    ensures
        crate::strings::padded_text(s, width, filling, false).take(s.len() as int) == s,
        ({
            let l = crate::strings::padded_text(s, width, filling, true);
            l.len() >= s.len() && l.skip(l.len() - s.len()) == s
        }),
{
    let n = crate::text::utf16_units(s).len();
    if width <= n {
        assert(s.take(s.len() as int) =~= s);
        assert(s.skip(0) =~= s);
    } else {
        let p = crate::strings::utf16_decoded(crate::strings::pad_units(crate::text::utf16_units(filling), (width - n) as nat));
        assert((s + p).take(s.len() as int) =~= s);
        assert((p + s).skip(p.len() as int) =~= s);
    }
}

/// `?item_parity` and `?item_parity_cap` agree with `?is_odd_item`: the
/// item is `odd` (`Odd`) exactly when its 1-based counter is odd, so the
/// first item is odd and neighbouring items differ.
pub proof fn law_item_parity_follows_counter(index: nat, has_next: bool)
    ensures
        ({
            let odd = crate::loops::loop_builtin_value("is_odd_item"@, index as int, has_next)
                == Val::Boolean(true);
            let even = crate::loops::loop_builtin_value("is_even_item"@, index as int, has_next)
                == Val::Boolean(true);
            &&& odd != even
            &&& (crate::loops::parity_text(index as int, false) == "odd"@) == odd
            &&& (crate::loops::parity_text(index as int, false) == "even"@) == even
            &&& (crate::loops::parity_text(index as int, true) == "Odd"@) == odd
            &&& (crate::loops::parity_text(index as int, true) == "Even"@) == even
            &&& crate::loops::parity_text(index as int, false) != crate::loops::parity_text(index as int + 1, false)
        }),
        crate::loops::parity_text(0, false) == "odd"@,
{
    reveal_strlit("odd");
    reveal_strlit("even");
    reveal_strlit("Odd");
    reveal_strlit("Even");
    reveal_strlit("index");
    reveal_strlit("counter");
    reveal_strlit("has_next");
    reveal_strlit("has_previous");
    reveal_strlit("is_first");
    reveal_strlit("is_last");
    reveal_strlit("is_odd");
    reveal_strlit("is_even");
    reveal_strlit("is_odd_item");
    reveal_strlit("is_even_item");
    assert("odd"@.len() == 3 && "even"@.len() == 4 && "Odd"@.len() == 3 && "Even"@.len() == 4);
    assert("index"@.len() == 5 && "counter"@.len() == 7 && "has_next"@.len() == 8);
    assert("has_previous"@.len() == 12 && "is_first"@.len() == 8 && "is_last"@.len() == 7);
    assert("is_odd"@.len() == 6 && "is_even"@.len() == 7 && "is_odd_item"@.len() == 11);
    assert("is_even_item"@.len() == 12);
    assert("is_odd_item"@[3] != "is_first"@[3]);
    assert("is_even_item"@[3] != "has_previous"@[3]);
    assert("is_odd_item"@[0] != "has_next"@[0]);
}

/// While no item has been joined, no item was a text.
proof fn lemma_join_none_no_text(items: Seq<crate::seq_builtins::JoinItem>, sep: Seq<char>)
    ensures
        crate::seq_builtins::join_acc(items, sep) == Ok::<Option<Seq<char>>, Seq<char>>(None) ==> forall|i: int|
            0 <= i < items.len() ==> !(#[trigger] items[i] is Text),
    decreases items.len(),
{
    if items.len() > 0 {
        lemma_join_none_no_text(items.drop_last(), sep);
        if crate::seq_builtins::join_acc(items, sep) == Ok::<Option<Seq<char>>, Seq<char>>(None) {
            assert forall|i: int| 0 <= i < items.len() implies !(#[trigger] items[i] is Text) by {
                if i < items.len() - 1 {
                    assert(items[i] == items.drop_last()[i]);
                }
            }
        }
    }
}

/// `?join` with an `after_last` text, when at least one item is joined,
/// gives the result without it followed by it; with no item joined the
/// `after_last` text plays no part.
pub proof fn law_join_after_last(
    items: Seq<crate::seq_builtins::JoinItem>,
    sep: Seq<char>,
    when_empty: Option<Seq<char>>,
    last: Seq<char>,
)
    ensures
        ({
            let plain = crate::seq_builtins::join_result(items, sep, when_empty, None);
            let with_last = crate::seq_builtins::join_result(items, sep, when_empty, Some(last));
            &&& (plain is Err) == (with_last is Err)
            &&& plain is Ok && (exists|i: int| 0 <= i < items.len() && #[trigger] items[i] is Text) ==> with_last
                == Ok::<Seq<char>, Seq<char>>(plain->Ok_0 + last)
            &&& plain is Ok && !(exists|i: int| 0 <= i < items.len() && #[trigger] items[i] is Text)
                ==> with_last == plain
        }),
{
    lemma_join_none_no_text(items, sep);
    match crate::seq_builtins::join_acc(items, sep) {
        Ok(Some(a)) => {
            if !(exists|i: int| 0 <= i < items.len() && #[trigger] items[i] is Text) {
                lemma_join_some_has_text(items, sep);
            }
        },
        _ => {},
    }
}

/// Once an item has been joined, some item was a text.
proof fn lemma_join_some_has_text(items: Seq<crate::seq_builtins::JoinItem>, sep: Seq<char>)
    ensures
        crate::seq_builtins::join_acc(items, sep) matches Ok(Some(_)) ==> exists|i: int|
            0 <= i < items.len() && #[trigger] items[i] is Text,
    decreases items.len(),
{
    if items.len() > 0 {
        lemma_join_some_has_text(items.drop_last(), sep);
        if crate::seq_builtins::join_acc(items, sep) matches Ok(Some(_)) {
            if items.last() is Text {
                assert(items[items.len() - 1] is Text);
            } else {
                let k = choose|i: int| 0 <= i < items.drop_last().len() && #[trigger] items.drop_last()[i] is Text;
                assert(items[k] == items.drop_last()[k]);
            }
        }
    }
}

/// Markup text with the character entities `&lt;`, `&gt;`, `&amp;`,
/// `&quot;`, `&#39;` and `&apos;` read back as the characters they stand
/// for, scanning from the start.
pub open spec fn unescape_entities(t: Seq<char>) -> Seq<char>
    decreases t.len(),
{
    if t.len() == 0 {
        Seq::empty()
    } else if crate::text::has_prefix(t, "&lt;"@) && t.len() >= 4 {
        seq!['<'] + unescape_entities(t.skip(4))
    } else if crate::text::has_prefix(t, "&gt;"@) && t.len() >= 4 {
        seq!['>'] + unescape_entities(t.skip(4))
    } else if crate::text::has_prefix(t, "&amp;"@) && t.len() >= 5 {
        seq!['&'] + unescape_entities(t.skip(5))
    } else if crate::text::has_prefix(t, "&quot;"@) && t.len() >= 6 {
        seq!['"'] + unescape_entities(t.skip(6))
    } else if crate::text::has_prefix(t, "&#39;"@) && t.len() >= 5 {
        seq!['\''] + unescape_entities(t.skip(5))
    } else if crate::text::has_prefix(t, "&apos;"@) && t.len() >= 6 {
        seq!['\''] + unescape_entities(t.skip(6))
    } else {
        seq![t[0]] + unescape_entities(t.skip(1))
    }
}

/// A text does not start with a word it differs from at some index.
proof fn lemma_not_prefix(t: Seq<char>, p: Seq<char>, i: int)
    requires
        0 <= i < p.len(),
        i < t.len(),
        t[i] != p[i],
    ensures
        !crate::text::has_prefix(t, p),
{
    if crate::text::has_prefix(t, p) {
        assert(t.take(p.len() as int)[i] == t[i]);
    }
}

/// A text starts with a word followed by anything.
proof fn lemma_is_prefix(p: Seq<char>, r: Seq<char>)
    ensures
        crate::text::has_prefix(p + r, p),
        (p + r).skip(p.len() as int) == r,
{
    assert((p + r).take(p.len() as int) =~= p);
    assert((p + r).skip(p.len() as int) =~= r);
}

/// Escaping a text is escaping its first character, then the rest.
proof fn lemma_escape_text_front(k: OutputFormatKind, s: Seq<char>)
    requires
        s.len() > 0,
    ensures
        escape_text(k, s) == escape_char(k, s[0]) + escape_text(k, s.skip(1)),
    decreases s.len(),
{
    if s.len() == 1 {
        assert(s.drop_last() =~= Seq::<char>::empty());
        assert(s.skip(1) =~= Seq::<char>::empty());
        assert(escape_char(k, s[0]) + Seq::<char>::empty() =~= escape_char(k, s[0]));
    } else {
        lemma_escape_text_front(k, s.drop_last());
        assert(s.skip(1).drop_last() =~= s.drop_last().skip(1));
        assert(s.skip(1).last() == s.last());
        assert(s.drop_last()[0] == s[0]);
        let a = escape_char(k, s[0]);
        let b = escape_text(k, s.drop_last().skip(1));
        let c = escape_char(k, s.last());
        assert(a + b + c =~= a + (b + c));
    }
}

/// Reading back the escape of one character followed by the escape of the
/// rest gives the character followed by what the rest reads back as.
proof fn lemma_unescape_char(k: OutputFormatKind, c: char, r: Seq<char>)
    requires
        k == OutputFormatKind::Html || k == OutputFormatKind::XHtml || k == OutputFormatKind::Xml,
    ensures
        unescape_entities(escape_char(k, c) + r) == seq![c] + unescape_entities(r),
{
    reveal_strlit("&lt;");
    reveal_strlit("&gt;");
    reveal_strlit("&amp;");
    reveal_strlit("&quot;");
    reveal_strlit("&#39;");
    reveal_strlit("&apos;");
    let lt: Seq<char> = "&lt;"@;
    let gt: Seq<char> = "&gt;"@;
    let amp: Seq<char> = "&amp;"@;
    let quot: Seq<char> = "&quot;"@;
    let n39: Seq<char> = "&#39;"@;
    let apos: Seq<char> = "&apos;"@;
    let e = escape_char(k, c);
    let t = e + r;
    lemma_is_prefix(e, r);
    if e.len() == 1 {
        assert(e[0] == c && c != '&');
        assert(t[0] == c);
        lemma_not_prefix(t, lt, 0);
        lemma_not_prefix(t, gt, 0);
        lemma_not_prefix(t, amp, 0);
        lemma_not_prefix(t, quot, 0);
        lemma_not_prefix(t, n39, 0);
        lemma_not_prefix(t, apos, 0);
    } else {
        assert(t[1] == e[1]);
        assert(t[2] == e[2]);
        if e == lt {
        } else if e == gt {
            lemma_not_prefix(t, lt, 1);
        } else if e == amp {
            lemma_not_prefix(t, lt, 1);
            lemma_not_prefix(t, gt, 1);
        } else if e == quot {
            lemma_not_prefix(t, lt, 1);
            lemma_not_prefix(t, gt, 1);
            lemma_not_prefix(t, amp, 1);
        } else if e == n39 {
            lemma_not_prefix(t, lt, 1);
            lemma_not_prefix(t, gt, 1);
            lemma_not_prefix(t, amp, 1);
            lemma_not_prefix(t, quot, 1);
        } else {
            assert(e == apos);
            lemma_not_prefix(t, lt, 1);
            lemma_not_prefix(t, gt, 1);
            lemma_not_prefix(t, amp, 2);
            lemma_not_prefix(t, quot, 1);
            lemma_not_prefix(t, n39, 1);
        }
    }
}

/// Escaping for HTML, XHTML or XML output loses nothing: reading the
/// character entities back gives the original text, so two different texts
/// never escape alike.
pub proof fn law_markup_escaping_reads_back(k: OutputFormatKind, s: Seq<char>)
    requires
        k == OutputFormatKind::Html || k == OutputFormatKind::XHtml || k == OutputFormatKind::Xml,
    ensures
        unescape_entities(escape_text(k, s)) == s,
    decreases s.len(),
{
    if s.len() == 0 {
        assert(escape_text(k, s) =~= Seq::<char>::empty());
    } else {
        lemma_escape_text_front(k, s);
        law_markup_escaping_reads_back(k, s.skip(1));
        lemma_unescape_char(k, s[0], escape_text(k, s.skip(1)));
        assert(seq![s[0]] + s.skip(1) =~= s);
    }
}

/// The loop-variable built-ins agree with each other: `?counter` is
/// `?index` plus one, `?is_first` holds on index 0, `?has_previous` is its
/// negation, `?is_last` is the negation of `?has_next`, `?is_even` and
/// `?is_odd` are opposite, and so are `?is_odd_item` and `?is_even_item`,
/// the first item being odd.
pub proof fn law_loop_builtins_agree(index: nat, has_next: bool)
    ensures
        ({
            let v = |n: Seq<char>| crate::loops::loop_builtin_value(n, index as int, has_next);
            &&& v("index"@) == Val::Number(crate::number::TNumber::Long(index as i64))
            &&& v("counter"@) == Val::Number(crate::number::TNumber::Long((index + 1) as i64))
            &&& v("is_first"@) == Val::Boolean(index == 0)
            &&& v("has_previous"@) == Val::Boolean(index != 0)
            &&& v("has_next"@) == Val::Boolean(has_next)
            &&& v("is_last"@) == Val::Boolean(!has_next)
            &&& (v("is_even"@) == Val::Boolean(true)) != (v("is_odd"@) == Val::Boolean(true))
            &&& (v("is_odd_item"@) == Val::Boolean(true)) != (v("is_even_item"@) == Val::Boolean(true))
            &&& (v("is_odd_item"@) == Val::Boolean(true)) == (v("is_even"@) == Val::Boolean(true))
            &&& v("is_even"@) is Boolean && v("is_odd"@) is Boolean
            &&& v("is_odd_item"@) is Boolean && v("is_even_item"@) is Boolean
        }),
{
    reveal_strlit("index");
    reveal_strlit("counter");
    reveal_strlit("has_next");
    reveal_strlit("has_previous");
    reveal_strlit("is_first");
    reveal_strlit("is_last");
    reveal_strlit("is_odd");
    reveal_strlit("is_even");
    reveal_strlit("is_odd_item");
    reveal_strlit("is_even_item");
    assert("index"@.len() == 5 && "counter"@.len() == 7 && "has_next"@.len() == 8);
    assert("has_previous"@.len() == 12 && "is_first"@.len() == 8 && "is_last"@.len() == 7);
    assert("is_odd"@.len() == 6 && "is_even"@.len() == 7 && "is_odd_item"@.len() == 11);
    assert("is_even_item"@.len() == 12);
    assert("is_first"@[0] != "has_next"@[0]);
    assert("is_last"@[0] != "counter"@[0]);
    assert("is_even"@[0] != "counter"@[0]);
    assert("is_even"@[3] != "is_last"@[3]);
    assert("is_even_item"@[0] != "has_previous"@[0]);
}

/// `?substring` splits a text: for a split point `b` within the text,
/// `s?substring(0, b)` followed by `s?substring(b)` is `s`, and the pieces
/// are `b` and the rest long.
pub proof fn law_substring_splits(s: Seq<char>, b: int)
    requires
        0 <= b <= s.len(),
    ensures
        crate::strings::substring_result(s, 0, Some(b)) matches Ok(x) && crate::strings::substring_result(
            s,
            b,
            None,
        ) matches Ok(y) && x + y == s && x.len() == b,
{
    assert(s.subrange(0, b) + s.subrange(b, s.len() as int) =~= s);
}

/// A text cut for a message is never longer than the limit (when the limit
/// leaves room for `...`), starts like the text, and is the text itself
/// when that fits.
pub proof fn law_shortened_fits(s: Seq<char>, max_len: nat)
    requires
        max_len >= 3,
    ensures
        ({
            let r = crate::settings::shortened(s, max_len);
            &&& r.len() <= max_len
            &&& s.len() <= max_len ==> r == s
            &&& s.len() > max_len ==> r.len() == max_len && r.take(max_len - 3) == s.take(max_len - 3)
                && r.skip(max_len - 3) == "..."@
        }),
{
    reveal_strlit("...");
    let r = crate::settings::shortened(s, max_len);
    if s.len() > max_len {
        let h = s.take(max_len - 3);
        assert((h + "..."@).take(max_len - 3) =~= h);
        assert((h + "..."@).skip(max_len - 3) =~= "..."@);
    }
}

/// A `boolean_format` of the form `t,f` (no comma in `t`) prints true as
/// `t` and false as `f`, and its two texts put back together with the comma
/// are the setting.
pub proof fn law_boolean_format_two_texts(t: Seq<char>, f: Seq<char>, fallback: bool)
    requires
        forall|i: int| 0 <= i < t.len() ==> t[i] != ',',
        t + ","@ + f != "true,false"@,
    ensures
        crate::settings::boolean_text(t + ","@ + f, true, fallback) == Ok::<Seq<char>, Seq<char>>(t),
        crate::settings::boolean_text(t + ","@ + f, false, fallback) == Ok::<Seq<char>, Seq<char>>(f),
        crate::settings::boolean_strings(t + ","@ + f) == Some((t, f)),
{
    reveal_strlit(",");
    reveal_strlit("c");
    let fmt = t + ","@ + f;
    assert(fmt[t.len() as int] == ',');
    assert forall|j: int| 0 <= j < t.len() implies fmt[j] != ',' by {
        assert(fmt[j] == t[j]);
    }
    crate::settings::lemma_first_comma_at(fmt, t.len());
    assert(fmt != "c"@) by {
        assert(fmt.len() >= 1);
        if fmt.len() == 1 {
            assert(fmt[0] == ',');
        }
    }
    assert(fmt.take(t.len() as int) =~= t);
    assert(fmt.skip(t.len() + 1int) =~= f);
}

/// `?join` with one more text item: the result grows by the separator and
/// the text, or is just the text when nothing was joined before.
pub proof fn law_join_one_more(
    items: Seq<crate::seq_builtins::JoinItem>,
    sep: Seq<char>,
    t: String,
)
    ensures
        crate::seq_builtins::join_acc(items, sep) matches Ok(Some(a)) ==> crate::seq_builtins::join_result(
            items.push(crate::seq_builtins::JoinItem::Text(t)),
            sep,
            None,
            None,
        ) == Ok::<Seq<char>, Seq<char>>(a + sep + t@),
        crate::seq_builtins::join_acc(items, sep) == Ok::<Option<Seq<char>>, Seq<char>>(None)
            ==> crate::seq_builtins::join_result(items.push(crate::seq_builtins::JoinItem::Text(t)), sep, None, None)
            == Ok::<Seq<char>, Seq<char>>(t@),
{
    assert(items.push(crate::seq_builtins::JoinItem::Text(t)).drop_last() =~= items);
}

/// Whether no piece holds the character `d`.
pub open spec fn pieces_without(ps: Seq<Seq<char>>, d: char) -> bool {
    forall|i: int, j: int| 0 <= i < ps.len() && 0 <= j < ps[i].len() ==> #[trigger] ps[i][j] != d
}

/// The pieces of a split never hold the separator.
proof fn lemma_split_pieces_without(s: Seq<char>, d: char)
    ensures
        pieces_without(crate::text::split_on(s, d), d),
    decreases s.len(),
{
    if s.len() > 0 {
        lemma_split_pieces_without(s.drop_last(), d);
        lemma_split_on_nonempty(s.drop_last(), d);
        let rest = crate::text::split_on(s.drop_last(), d);
        if s.last() != d {
            let r = rest.update(rest.len() - 1, rest.last().push(s.last()));
            assert forall|i: int, j: int| 0 <= i < r.len() && 0 <= j < r[i].len() implies #[trigger] r[i][j] != d by {
                if i < rest.len() - 1 {
                    assert(r[i] == rest[i]);
                } else if j < rest.last().len() {
                    assert(r[i][j] == rest[rest.len() - 1][j]);
                }
            }
        } else {
            let r = rest.push(Seq::<char>::empty());
            assert forall|i: int, j: int| 0 <= i < r.len() && 0 <= j < r[i].len() implies #[trigger] r[i][j] != d by {
                assert(r[i] == rest[i]);
            }
        }
    }
}

/// Joining pieces without the separator and splitting again gives the
/// pieces back.
proof fn lemma_split_join(ps: Seq<Seq<char>>)
    requires
        ps.len() >= 1,
        pieces_without(ps, '/'),
    ensures
        crate::text::split_on(crate::text::join_with(ps, "/"@), '/') == ps,
    decreases ps.len(),
{
    reveal_strlit("/");
    if ps.len() == 1 {
        assert forall|j: int| 0 <= j < ps[0].len() implies ps[0][j] != '/' by {
            assert(ps[0][j] != '/');
        }
        lemma_split_on_whole(ps[0], '/');
        assert(seq![ps[0]] =~= ps);
    } else {
        let q = ps.drop_last();
        assert forall|i: int, j: int| 0 <= i < q.len() && 0 <= j < q[i].len() implies #[trigger] q[i][j] != '/' by {
            assert(q[i] == ps[i]);
        }
        lemma_split_join(q);
        assert forall|j: int| 0 <= j < ps.last().len() implies ps.last()[j] != '/' by {
            assert(ps[ps.len() - 1][j] != '/');
        }
        lemma_split_on_whole(ps.last(), '/');
        assert(crate::text::join_with(q, "/"@) + "/"@ + ps.last() =~= crate::text::join_with(q, "/"@) + seq!['/']
            + ps.last());
        lemma_split_on_join(crate::text::join_with(q, "/"@), ps.last(), '/');
        assert(q + seq![ps.last()] =~= ps);
    }
}

/// Normalized segments: none empty or `.`, none with `/`, and `..` only in
/// a leading run.
pub open spec fn clean_segments(c: Seq<Seq<char>>) -> bool {
    &&& pieces_without(c, '/')
    &&& forall|i: int| 0 <= i < c.len() ==> #[trigger] c[i] != Seq::<char>::empty() && c[i] != "."@
    &&& forall|i: int, j: int| 0 <= j < i < c.len() && #[trigger] c[i] == ".."@ ==> #[trigger] c[j] == ".."@
}

/// Normalizing gives clean segments.
proof fn lemma_norm_clean(segs: Seq<Seq<char>>)
    requires
        pieces_without(segs, '/'),
    ensures
        clean_segments(crate::paths::norm_segments(segs)),
    decreases segs.len(),
{
    reveal_strlit(".");
    reveal_strlit("..");
    if segs.len() > 0 {
        let q = segs.drop_last();
        assert forall|i: int, j: int| 0 <= i < q.len() && 0 <= j < q[i].len() implies #[trigger] q[i][j] != '/' by {
            assert(q[i] == segs[i]);
        }
        lemma_norm_clean(q);
        let out = crate::paths::norm_segments(q);
        let seg = segs.last();
        let r = crate::paths::norm_segments(segs);
        if seg == Seq::<char>::empty() || seg == "."@ {
        } else if seg == ".."@ {
            if out.len() > 0 && out.last() != ".."@ {
                assert(r =~= out.drop_last());
                assert forall|i: int, j: int| 0 <= i < r.len() && 0 <= j < r[i].len() implies #[trigger] r[i][j] != '/' by {
                    assert(r[i] == out[i]);
                }
                assert forall|i: int| 0 <= i < r.len() implies #[trigger] r[i] != Seq::<char>::empty() && r[i] != "."@ by {
                    assert(r[i] == out[i]);
                }
                assert forall|i: int, j: int| 0 <= j < i < r.len() && #[trigger] r[i] == ".."@ implies #[trigger] r[j] == ".."@ by {
                    assert(r[i] == out[i] && r[j] == out[j]);
                }
            } else {
                assert(r =~= out.push(".."@));
                assert forall|i: int, j: int| 0 <= i < r.len() && 0 <= j < r[i].len() implies #[trigger] r[i][j] != '/' by {
                    if i < out.len() {
                        assert(r[i] == out[i]);
                    } else {
                        assert(r[i] == seq!['.', '.']);
                    }
                }
                assert forall|i: int| 0 <= i < r.len() implies #[trigger] r[i] != Seq::<char>::empty() && r[i] != "."@ by {
                    if i < out.len() {
                        assert(r[i] == out[i]);
                    }
                }
                assert forall|i: int, j: int| 0 <= j < i < r.len() && #[trigger] r[i] == ".."@ implies #[trigger] r[j] == ".."@ by {
                    assert(r[j] == out[j]);
                    if i < out.len() {
                        assert(r[i] == out[i]);
                    } else {
                        assert(out.last() == ".."@);
                        assert(out[out.len() - 1] == ".."@);
                        if j < out.len() - 1 {
                        }
                    }
                }
            }
        } else {
            assert(r =~= out.push(seg));
            assert forall|i: int, j: int| 0 <= i < r.len() && 0 <= j < r[i].len() implies #[trigger] r[i][j] != '/' by {
                if i < out.len() {
                    assert(r[i] == out[i]);
                } else {
                    assert(r[i] == segs[segs.len() - 1]);
                }
            }
            assert forall|i: int| 0 <= i < r.len() implies #[trigger] r[i] != Seq::<char>::empty() && r[i] != "."@ by {
                if i < out.len() {
                    assert(r[i] == out[i]);
                }
            }
            assert forall|i: int, j: int| 0 <= j < i < r.len() && #[trigger] r[i] == ".."@ implies #[trigger] r[j] == ".."@ by {
                assert(r[j] == out[j]);
                assert(r[i] == out[i]);
            }
        }
    }
}

/// Clean segments normalize to themselves.
proof fn lemma_clean_fixed(c: Seq<Seq<char>>)
    requires
        clean_segments(c),
    ensures
        crate::paths::norm_segments(c) == c,
    decreases c.len(),
{
    reveal_strlit("..");
    if c.len() > 0 {
        let q = c.drop_last();
        assert forall|i: int, j: int| 0 <= i < q.len() && 0 <= j < q[i].len() implies #[trigger] q[i][j] != '/' by {
            assert(q[i] == c[i]);
        }
        assert forall|i: int| 0 <= i < q.len() implies #[trigger] q[i] != Seq::<char>::empty() && q[i] != "."@ by {
            assert(q[i] == c[i]);
        }
        assert forall|i: int, j: int| 0 <= j < i < q.len() && #[trigger] q[i] == ".."@ implies #[trigger] q[j] == ".."@ by {
            assert(q[i] == c[i] && q[j] == c[j]);
        }
        lemma_clean_fixed(q);
        assert(c[c.len() - 1] != Seq::<char>::empty() && c[c.len() - 1] != "."@);
        if c.last() == ".."@ && q.len() > 0 {
            assert(c[q.len() - 1] == ".."@);
            assert(q.last() == ".."@);
        }
        assert(q.push(c.last()) =~= c);
    }
}

/// Normalizing a template path twice changes nothing more: a normalized
/// path is its own normal form.
pub proof fn law_normalized_path_idempotent(p: Seq<char>)
    ensures
        crate::paths::normalized_path(crate::paths::normalized_path(p)) == crate::paths::normalized_path(p),
{
    reveal_strlit("/");
    let segs = crate::text::split_on(p, '/');
    lemma_split_pieces_without(p, '/');
    lemma_norm_clean(segs);
    let n = crate::paths::norm_segments(segs);
    lemma_clean_fixed(n);
    if n.len() == 0 {
        let e = Seq::<char>::empty();
        assert(crate::text::join_with(n, "/"@) == e);
        assert(crate::text::split_on(e, '/') == seq![e]);
        let one = seq![e];
        assert(one.drop_last() =~= Seq::<Seq<char>>::empty());
        assert(crate::paths::norm_segments(one) == crate::paths::norm_step(Seq::<Seq<char>>::empty(), e));
    } else {
        lemma_split_join(n);
    }
}

/// `?first` of a sequence or string is `?last` of its reverse, and `?last`
/// is `?first` of its reverse (an empty string fails both ways, with the
/// message naming the built-in used).
pub proof fn law_first_last_reverse(v: Val)
    requires
        crate::sequences::seq_items(v) is Some || crate::sequences::scalar_text(v) is Some,
    ensures
        reverse_result(v) matches Ok(r) && (crate::seq_builtins::first_result(v) is Ok
            ==> crate::seq_builtins::last_result(r) == crate::seq_builtins::first_result(v))
            && (crate::seq_builtins::last_result(v) is Ok ==> crate::seq_builtins::first_result(r)
            == crate::seq_builtins::last_result(v)) && (crate::seq_builtins::first_result(v) is Ok
            <==> crate::seq_builtins::last_result(r) is Ok),
{
    match crate::sequences::seq_items(v) {
        Some(items) => {
            let r = Val::Sequence(items.reverse());
            assert(crate::sequences::seq_items(r) == Some(items.reverse()));
            assert(listable_items(r) == Some(items.reverse()));
            assert(listable_items(v) == Some(items));
            if items.len() > 0 {
                assert(items.reverse().last() == items[0]);
                assert(items.reverse()[0] == items.last());
            }
        },
        None => {
            let s = crate::sequences::scalar_text(v)->Some_0;
            let r = Val::Scalar(s.reverse());
            assert(listable_items(v) is None);
            if s.len() > 0 {
                assert(s.reverse().last() == s[0]);
                assert(s.reverse()[0] == s.last());
            }
        },
    }
}

/// `s?index_of(sub, from)` finds the first place at or after `from` (or 0
/// when `from` is negative) where `sub` occurs, and is -1 exactly when it
/// occurs nowhere there.
#[verifier::spinoff_prover]
#[verifier::rlimit(40)]
pub proof fn law_string_index_of_finds_first(s: Seq<char>, sub: Seq<char>, from: int)
    ensures
        ({
            let start = if from < 0 { 0 } else { from };
            let r = crate::strings::index_of_result(s, sub, from);
            &&& (r == -1) == !(exists|i: int| start <= i && #[trigger] crate::strings::occurs_at_index(s, sub, i))
            &&& r != -1 ==> start <= r && crate::strings::occurs_at_index(s, sub, r) && forall|j: int|
                start <= j < r ==> !#[trigger] crate::strings::occurs_at_index(s, sub, j)
        }),
{
    let start = if from < 0 { 0 } else { from };
    if exists|i: int| start <= i && #[trigger] crate::strings::occurs_at_index(s, sub, i) {
        let w = choose|i: int| start <= i && #[trigger] crate::strings::occurs_at_index(s, sub, i);
        lemma_least_occurrence(s, sub, start, w);
    }
}

/// Where `sub` occurs at or after `start`, it occurs first at some index.
proof fn lemma_least_occurrence(s: Seq<char>, sub: Seq<char>, start: int, w: int)
    requires
        start <= w,
        crate::strings::occurs_at_index(s, sub, w),
    ensures
        exists|i: int|
            start <= i && crate::strings::occurs_at_index(s, sub, i) && forall|j: int|
                start <= j < i ==> !#[trigger] crate::strings::occurs_at_index(s, sub, j),
    decreases w - start,
{
    if exists|j: int| start <= j < w && #[trigger] crate::strings::occurs_at_index(s, sub, j) {
        let j = choose|j: int| start <= j < w && #[trigger] crate::strings::occurs_at_index(s, sub, j);
        lemma_least_occurrence(s, sub, start, j);
    } else {
        assert(start <= w && crate::strings::occurs_at_index(s, sub, w) && forall|j: int|
            start <= j < w ==> !#[trigger] crate::strings::occurs_at_index(s, sub, j));
    }
}

/// A combined format whose outer format is HTML, XHTML or XML escapes to
/// safe markup, and reading its entities back gives what the inner formats
/// made of the text.
pub proof fn law_combined_escaping_outer_layer(ks: Seq<OutputFormatKind>, s: Seq<char>)
    requires
        ks.len() > 0,
        ks[0] == OutputFormatKind::Html || ks[0] == OutputFormatKind::XHtml || ks[0] == OutputFormatKind::Xml,
    ensures
        markup_safe(crate::combined_format::combined_escape(ks, s)),
        unescape_entities(crate::combined_format::combined_escape(ks, s)) == crate::combined_format::combined_escape(
            ks.drop_first(),
            s,
        ),
{
    let inner = crate::combined_format::combined_escape(ks.drop_first(), s);
    law_markup_escaping_is_safe(ks[0], inner);
    law_markup_escaping_reads_back(ks[0], inner);
}

/// RTF text read from the start: a backslash escapes the character after
/// it; a raw `{` or `}` makes the text unsafe.
pub open spec fn rtf_read(t: Seq<char>) -> Option<Seq<char>>
    decreases t.len(),
{
    if t.len() == 0 {
        Some(Seq::empty())
    } else if t[0] == '\\' {
        if t.len() < 2 {
            None
        } else {
            match rtf_read(t.skip(2)) {
                Some(r) => Some(seq![t[1]] + r),
                None => None,
            }
        }
    } else if t[0] == '{' || t[0] == '}' {
        None
    } else {
        match rtf_read(t.skip(1)) {
            Some(r) => Some(seq![t[0]] + r),
            None => None,
        }
    }
}

/// Plain text escaped for RTF output has no raw brace or lone backslash,
/// and reading its escapes back gives the original text.
pub proof fn law_rtf_escaping_reads_back(s: Seq<char>)
    ensures
        rtf_read(escape_text(OutputFormatKind::Rtf, s)) == Some(s),
    decreases s.len(),
{
    reveal_strlit("\\\\");
    reveal_strlit("\\{");
    reveal_strlit("\\}");
    if s.len() == 0 {
        assert(escape_text(OutputFormatKind::Rtf, s) =~= Seq::<char>::empty());
        assert(s =~= Seq::<char>::empty());
    } else {
        lemma_escape_text_front(OutputFormatKind::Rtf, s);
        law_rtf_escaping_reads_back(s.skip(1));
        let e = escape_char(OutputFormatKind::Rtf, s[0]);
        let r = escape_text(OutputFormatKind::Rtf, s.skip(1));
        let t = e + r;
        lemma_is_prefix(e, r);
        if e.len() == 2 {
            assert(t[0] == '\\');
            assert(t[1] == s[0]);
            assert(t.skip(2) == r);
        } else {
            assert(t[0] == s[0]);
            assert(t.skip(1) == r);
        }
        assert(seq![s[0]] + s.skip(1) =~= s);
    }
}

} // verus!
