//! Expressions of the `nodedb_query` crate.
//!
//! What an expression yields for a row has a name where it is steady, that is
//! where it depends on the expression and the row alone: it asks for no time,
//! makes no identifier, and leans neither on an order that changes from run to
//! run nor on a rounding that differs between machines.
//!
//! A few of the crate's functions do not answer for every argument. They cut
//! texts at a byte, or make as many things as a number says. An expression is
//! evaluated for a row only where each of its parts answers.
use crate::chars;
use crate::render;
use crate::render::{NativeLevel, NativeTree};
use crate::text;
use crate::timestamp;
use nodedb_query::expr::SqlExpr;
use vstd::prelude::*;

verus! {

/// An expression over a row.
#[verifier::external_type_specification]
#[verifier::external_body]
pub struct ExSqlExpr(nodedb_query::expr::SqlExpr);

/// What an expression is made of, all the way down.
pub struct ExprTree {
    /// The expression itself.
    pub expr: SqlExpr,
    /// The function that it calls, if it is a call.
    pub call: Option<Seq<char>>,
    /// The expressions that it is made of, the arguments of a call among them.
    pub parts: Seq<ExprTree>,
}

/// One level of an expression.
#[derive(Debug)]
pub enum ExprShape {
    /// A call of a function with arguments.
    Call(String, Vec<SqlExpr>),
    /// Anything else with its parts.
    Parts(Vec<SqlExpr>),
    /// A choice: what is compared, the conditions with their results, and what
    /// is left.
    Case(
        Option<Box<SqlExpr>>,
        Vec<(SqlExpr, SqlExpr)>,
        Option<Box<SqlExpr>>,
    ),
}

/// What a `nodedb_query::expr::SqlExpr` is made of.
pub uninterp spec fn expr_tree(expr: SqlExpr) -> ExprTree;

/// The value of a steady expression for a row.
pub uninterp spec fn expr_value(
    expr: SqlExpr,
    doc: nodedb_types::Value,
) -> nodedb_types::Value;

/// What several expressions are made of.
pub open spec fn trees(exprs: Seq<SqlExpr>) -> Seq<ExprTree> {
    exprs.map_values(|e: SqlExpr| expr_tree(e))
}

/// An expression that may be missing, as a list.
pub open spec fn if_any(expr: Option<Box<SqlExpr>>) -> Seq<
    SqlExpr,
> {
    match expr {
        Some(e) => seq![*e],
        None => Seq::empty(),
    }
}

/// The conditions and results of a choice, in order.
pub open spec fn branches(
    pairs: Seq<(SqlExpr, SqlExpr)>,
) -> Seq<SqlExpr>
    decreases pairs.len(),
{
    if pairs.len() == 0 {
        Seq::empty()
    } else {
        branches(pairs.drop_last()).push(pairs.last().0).push(pairs.last().1)
    }
}

/// The function that one level of an expression calls.
pub open spec fn call_in(shape: ExprShape) -> Option<Seq<char>> {
    match shape {
        ExprShape::Call(name, _) => Some(name@),
        _ => None,
    }
}

/// The expressions that one level of an expression holds, in order.
pub open spec fn parts_in(shape: ExprShape) -> Seq<SqlExpr> {
    match shape {
        ExprShape::Call(_, args) => args@,
        ExprShape::Parts(parts) => parts@,
        ExprShape::Case(operand, pairs, rest) => if_any(operand) + branches(pairs@) + if_any(rest),
    }
}

/// Tells the variants of a `nodedb_query::expr::SqlExpr` apart and takes out the
/// expressions that they hold. The parts are those of the tree named
/// [`expr_tree`].
#[verifier::external_body]
fn expr_shape(expr: &SqlExpr) -> (r: ExprShape)
    ensures
        expr_tree(*expr) == (ExprTree { expr: *expr, call: call_in(r), parts: trees(parts_in(r)) }),
{
    match expr.clone() {
        SqlExpr::Function { name, args } => ExprShape::Call(name, args),
        SqlExpr::Coalesce(parts) => ExprShape::Parts(parts),
        SqlExpr::Negate(e) | SqlExpr::Cast { expr: e, .. } | SqlExpr::IsNull { expr: e, .. } => ExprShape::Parts(vec![*e]),
        SqlExpr::BinaryOp { left: a, right: b, .. } | SqlExpr::NullIf(a, b) => ExprShape::Parts(vec![*a, *b]),
        SqlExpr::Case { operand, when_thens, else_expr } => ExprShape::Case(operand, when_thens, else_expr),
        SqlExpr::Column(_) | SqlExpr::Literal(_) | SqlExpr::OldColumn(_) | SqlExpr::ExcludedColumn(_) => ExprShape::Parts(vec![]),
    }
}

/// Whether a name is that of a function of texts.
pub open spec fn text_call(name: Seq<char>) -> bool {
    name == "upper"@
        || name == "lower"@
        || name == "trim"@
        || name == "ltrim"@
        || name == "rtrim"@
        || name == "length"@
        || name == "char_length"@
        || name == "character_length"@
        || name == "substr"@
        || name == "substring"@
        || name == "concat"@
        || name == "replace"@
        || name == "reverse"@
}

fn is_text_call(name: &str) -> (r: bool)
    ensures
        r == text_call(name@),
{
    text::str_eq(name, "upper")
        || text::str_eq(name, "lower")
        || text::str_eq(name, "trim")
        || text::str_eq(name, "ltrim")
        || text::str_eq(name, "rtrim")
        || text::str_eq(name, "length")
        || text::str_eq(name, "char_length")
        || text::str_eq(name, "character_length")
        || text::str_eq(name, "substr")
        || text::str_eq(name, "substring")
        || text::str_eq(name, "concat")
        || text::str_eq(name, "replace")
        || text::str_eq(name, "reverse")
}

/// Whether a name is that of a function of numbers whose results are exact.
pub open spec fn number_call(name: Seq<char>) -> bool {
    name == "abs"@
        || name == "round"@
        || name == "ceil"@
        || name == "ceiling"@
        || name == "floor"@
        || name == "sqrt"@
        || name == "mod"@
        || name == "sign"@
        || name == "decimal"@
        || name == "to_decimal"@
}

fn is_number_call(name: &str) -> (r: bool)
    ensures
        r == number_call(name@),
{
    text::str_eq(name, "abs")
        || text::str_eq(name, "round")
        || text::str_eq(name, "ceil")
        || text::str_eq(name, "ceiling")
        || text::str_eq(name, "floor")
        || text::str_eq(name, "sqrt")
        || text::str_eq(name, "mod")
        || text::str_eq(name, "sign")
        || text::str_eq(name, "decimal")
        || text::str_eq(name, "to_decimal")
}

/// Whether a name is that of a function that chooses among its arguments or tells their type.
pub open spec fn choice_call(name: Seq<char>) -> bool {
    name == "coalesce"@
        || name == "nullif"@
        || name == "greatest"@
        || name == "least"@
        || name == "typeof"@
        || name == "type_of"@
        || name == "format_type"@
        || name == "pg_get_expr"@
        || name == "col_description"@
}

fn is_choice_call(name: &str) -> (r: bool)
    ensures
        r == choice_call(name@),
{
    text::str_eq(name, "coalesce")
        || text::str_eq(name, "nullif")
        || text::str_eq(name, "greatest")
        || text::str_eq(name, "least")
        || text::str_eq(name, "typeof")
        || text::str_eq(name, "type_of")
        || text::str_eq(name, "format_type")
        || text::str_eq(name, "pg_get_expr")
        || text::str_eq(name, "col_description")
}

/// Whether a name is that of a function that looks at an identifier.
pub open spec fn id_call(name: Seq<char>) -> bool {
    name == "is_uuid"@
        || name == "is_ulid"@
        || name == "is_cuid2"@
        || name == "is_nanoid"@
        || name == "id_type"@
        || name == "uuid_version"@
        || name == "ulid_timestamp"@
}

fn is_id_call(name: &str) -> (r: bool)
    ensures
        r == id_call(name@),
{
    text::str_eq(name, "is_uuid")
        || text::str_eq(name, "is_ulid")
        || text::str_eq(name, "is_cuid2")
        || text::str_eq(name, "is_nanoid")
        || text::str_eq(name, "id_type")
        || text::str_eq(name, "uuid_version")
        || text::str_eq(name, "ulid_timestamp")
}

/// Whether a name is that of a function that reads its texts as times or durations.
pub open spec fn time_call(name: Seq<char>) -> bool {
    name == "datetime"@
        || name == "to_datetime"@
        || name == "unix_secs"@
        || name == "epoch_secs"@
        || name == "unix_millis"@
        || name == "epoch_millis"@
        || name == "extract"@
        || name == "date_part"@
        || name == "date_trunc"@
        || name == "datetrunc"@
        || name == "date_add"@
        || name == "datetime_add"@
        || name == "date_sub"@
        || name == "datetime_sub"@
        || name == "date_diff"@
        || name == "datediff"@
        || name == "duration"@
        || name == "to_duration"@
}

fn is_time_call(name: &str) -> (r: bool)
    ensures
        r == time_call(name@),
{
    text::str_eq(name, "datetime")
        || text::str_eq(name, "to_datetime")
        || text::str_eq(name, "unix_secs")
        || text::str_eq(name, "epoch_secs")
        || text::str_eq(name, "unix_millis")
        || text::str_eq(name, "epoch_millis")
        || text::str_eq(name, "extract")
        || text::str_eq(name, "date_part")
        || text::str_eq(name, "date_trunc")
        || text::str_eq(name, "datetrunc")
        || text::str_eq(name, "date_add")
        || text::str_eq(name, "datetime_add")
        || text::str_eq(name, "date_sub")
        || text::str_eq(name, "datetime_sub")
        || text::str_eq(name, "date_diff")
        || text::str_eq(name, "datediff")
        || text::str_eq(name, "duration")
        || text::str_eq(name, "to_duration")
}

/// Whether a name is that of a function of arrays and objects that does not list the fields of an object.
pub open spec fn json_call(name: Seq<char>) -> bool {
    name == "pg_json_get"@
        || name == "pg_json_path_get"@
        || name == "pg_json_contains"@
        || name == "pg_json_contained_by"@
        || name == "pg_json_has_key"@
        || name == "pg_json_has_all_keys"@
        || name == "pg_json_has_any_key"@
        || name == "json_query"@
        || name == "json_exists"@
        || name == "json_extract"@
        || name == "json_get"@
        || name == "json_set"@
        || name == "json_remove"@
        || name == "json_length"@
        || name == "json_len"@
        || name == "json_type"@
        || name == "json_array"@
        || name == "json_object"@
        || name == "json_contains"@
        || name == "json_merge"@
        || name == "json_patch"@
}

fn is_json_call(name: &str) -> (r: bool)
    ensures
        r == json_call(name@),
{
    text::str_eq(name, "pg_json_get")
        || text::str_eq(name, "pg_json_path_get")
        || text::str_eq(name, "pg_json_contains")
        || text::str_eq(name, "pg_json_contained_by")
        || text::str_eq(name, "pg_json_has_key")
        || text::str_eq(name, "pg_json_has_all_keys")
        || text::str_eq(name, "pg_json_has_any_key")
        || text::str_eq(name, "json_query")
        || text::str_eq(name, "json_exists")
        || text::str_eq(name, "json_extract")
        || text::str_eq(name, "json_get")
        || text::str_eq(name, "json_set")
        || text::str_eq(name, "json_remove")
        || text::str_eq(name, "json_length")
        || text::str_eq(name, "json_len")
        || text::str_eq(name, "json_type")
        || text::str_eq(name, "json_array")
        || text::str_eq(name, "json_object")
        || text::str_eq(name, "json_contains")
        || text::str_eq(name, "json_merge")
        || text::str_eq(name, "json_patch")
}

/// Whether a name is that of a function of arrays.
pub open spec fn array_call(name: Seq<char>) -> bool {
    name == "array_length"@
        || name == "cardinality"@
        || name == "array_append"@
        || name == "array_prepend"@
        || name == "array_remove"@
        || name == "array_concat"@
        || name == "array_cat"@
        || name == "array_distinct"@
        || name == "array_contains"@
        || name == "array_position"@
        || name == "array_reverse"@
}

fn is_array_call(name: &str) -> (r: bool)
    ensures
        r == array_call(name@),
{
    text::str_eq(name, "array_length")
        || text::str_eq(name, "cardinality")
        || text::str_eq(name, "array_append")
        || text::str_eq(name, "array_prepend")
        || text::str_eq(name, "array_remove")
        || text::str_eq(name, "array_concat")
        || text::str_eq(name, "array_cat")
        || text::str_eq(name, "array_distinct")
        || text::str_eq(name, "array_contains")
        || text::str_eq(name, "array_position")
        || text::str_eq(name, "array_reverse")
}

/// Whether a name is that of a function of text search.
pub open spec fn search_call(name: Seq<char>) -> bool {
    name == "pg_fts_match"@
        || name == "pg_to_tsquery"@
        || name == "pg_plainto_tsquery"@
        || name == "pg_websearch_to_tsquery"@
        || name == "pg_phraseto_tsquery"@
        || name == "pg_to_tsvector"@
        || name == "pg_ts_rank"@
        || name == "pg_ts_headline"@
}

fn is_search_call(name: &str) -> (r: bool)
    ensures
        r == search_call(name@),
{
    text::str_eq(name, "pg_fts_match")
        || text::str_eq(name, "pg_to_tsquery")
        || text::str_eq(name, "pg_plainto_tsquery")
        || text::str_eq(name, "pg_websearch_to_tsquery")
        || text::str_eq(name, "pg_phraseto_tsquery")
        || text::str_eq(name, "pg_to_tsvector")
        || text::str_eq(name, "pg_ts_rank")
        || text::str_eq(name, "pg_ts_headline")
}

/// Whether a name is that of a function that yields no text, or one that can be read as a time or a duration.
pub open spec fn plain_call(name: Seq<char>) -> bool {
    name == "now"@
        || name == "current_timestamp"@
        || name == "uuid"@
        || name == "uuid_v4"@
        || name == "gen_random_uuid"@
        || name == "uuid_v7"@
        || name == "ulid"@
        || name == "cuid2"@
        || name == "datetime"@
        || name == "to_datetime"@
        || name == "date_trunc"@
        || name == "datetrunc"@
        || name == "date_add"@
        || name == "datetime_add"@
        || name == "date_sub"@
        || name == "datetime_sub"@
        || name == "duration"@
        || name == "to_duration"@
}

fn is_plain_call(name: &str) -> (r: bool)
    ensures
        r == plain_call(name@),
{
    text::str_eq(name, "now")
        || text::str_eq(name, "current_timestamp")
        || text::str_eq(name, "uuid")
        || text::str_eq(name, "uuid_v4")
        || text::str_eq(name, "gen_random_uuid")
        || text::str_eq(name, "uuid_v7")
        || text::str_eq(name, "ulid")
        || text::str_eq(name, "cuid2")
        || text::str_eq(name, "datetime")
        || text::str_eq(name, "to_datetime")
        || text::str_eq(name, "date_trunc")
        || text::str_eq(name, "datetrunc")
        || text::str_eq(name, "date_add")
        || text::str_eq(name, "datetime_add")
        || text::str_eq(name, "date_sub")
        || text::str_eq(name, "datetime_sub")
        || text::str_eq(name, "duration")
        || text::str_eq(name, "to_duration")
}

/// Whether what a function yields depends on its arguments alone.
pub open spec fn steady_call(name: Seq<char>) -> bool {
    text_call(name) || number_call(name) || choice_call(name) || id_call(name) || time_call(name)
        || json_call(name) || array_call(name) || search_call(name) || name == "time_bucket"@
}

fn is_steady_call(name: &str) -> (r: bool)
    ensures
        r == steady_call(name@),
{
    is_text_call(name) || is_number_call(name) || is_choice_call(name) || is_id_call(name)
        || is_time_call(name) || is_json_call(name) || is_array_call(name) || is_search_call(name)
        || text::str_eq(name, "time_bucket")
}

/// Whether what is made of these parts depends on itself and the row alone.
pub open spec fn steady_tree(t: ExprTree) -> bool
    decreases t,
{
    &&& t.call is Some ==> steady_call(t.call->0)
    &&& forall|i: int| 0 <= i < t.parts.len() ==> steady_tree(#[trigger] t.parts[i])
}

/// Whether an expression yields a value that depends on the expression and the
/// row alone.
pub open spec fn steady(expr: SqlExpr) -> bool {
    steady_tree(expr_tree(expr))
}

/// What an argument of a function has to be for the function to answer.
#[derive(Debug, Clone, Copy, PartialEq, Eq, Structural)]
pub enum Care {
    /// Anything.
    Free,
    /// A text, if it is one, that can be read as a time and as a duration.
    Sound,
    /// A text, if it is one, of ASCII characters.
    Ascii,
    /// A number or a text that stands for an interval.
    Interval,
    /// How many things to make.
    Size,
}

/// What an argument of a function has to be.
pub open spec fn care(name: Seq<char>, at: int) -> Care {
    if time_call(name) {
        Care::Sound
    } else if name == "geo_from_wkt"@ || name == "pg_ts_headline"@ {
        Care::Ascii
    } else if name == "time_bucket"@ {
        Care::Interval
    } else if name == "nanoid"@ && at == 0 || name == "st_buffer"@ && at == 2 || name
        == "geo_circle"@ && at == 3 {
        Care::Size
    } else {
        Care::Free
    }
}

fn care_of(name: &str, at: usize) -> (r: Care)
    ensures
        r == care(name@, at as int),
{
    if is_time_call(name) {
        Care::Sound
    } else if text::str_eq(name, "geo_from_wkt") || text::str_eq(name, "pg_ts_headline") {
        Care::Ascii
    } else if text::str_eq(name, "time_bucket") {
        Care::Interval
    } else if at == 0 && text::str_eq(name, "nanoid") || at == 2 && text::str_eq(name, "st_buffer")
        || at == 3 && text::str_eq(name, "geo_circle") {
        Care::Size
    } else {
        Care::Free
    }
}

/// Whether a text begins with two minus signs, white space between them or not.
pub open spec fn dashed(s: Seq<char>) -> bool {
    let t = chars::trimmed(s);
    let rest = chars::without_front(t.skip(1));
    t.len() > 0 && t[0] == '-' && rest.len() > 0 && rest[0] == '-'
}

fn is_dashed(s: &[char]) -> (r: bool)
    ensures
        r == dashed(s@),
{
    let t = chars::trim(s);
    if t.len() == 0 || t[0] != '-' {
        return false;
    }
    let rest = chars::trim_front(chars::tail(t, 1));
    rest.len() > 0 && rest[0] == '-'
}

/// Whether a text is made of ASCII characters.
pub open spec fn ascii(s: Seq<char>) -> bool {
    forall|i: int| 0 <= i < s.len() ==> (#[trigger] s[i]) as u32 <= 0x7f
}

fn is_ascii(s: &[char]) -> (r: bool)
    ensures
        r == ascii(s@),
{
    let mut i: usize = 0;
    while i < s.len()
        invariant
            i <= s@.len(),
            forall|j: int| 0 <= j < i ==> (#[trigger] s@[j]) as u32 <= 0x7f,
        decreases s@.len() - i,
    {
        if s[i] as u32 > 0x7f {
            return false;
        }
        i = i + 1;
    }
    true
}

/// Whether a text has a decimal digit at a position.
pub open spec fn digit_at(s: Seq<char>, i: int) -> bool {
    '0' <= s[i] <= '9'
}

/// Whether nine digits in a row begin at a position of a text.
pub open spec fn nine_at(s: Seq<char>, i: int) -> bool {
    i + 9 <= s.len() && forall|k: int| 0 <= k < 9 ==> #[trigger] digit_at(s, i + k)
}

/// Whether a text is short and holds no number of more than eight digits. The
/// intervals that it names then add up to no more milliseconds than 64 bits
/// count.
pub open spec fn moderate(s: Seq<char>) -> bool {
    s.len() <= 64 && forall|i: int| 0 <= i < s.len() ==> !#[trigger] nine_at(s, i)
}

fn is_moderate(s: &[char]) -> (r: bool)
    ensures
        r == moderate(s@),
{
    if s.len() > 64 {
        return false;
    }
    let mut i: usize = 0;
    while i < s.len()
        invariant
            i <= s@.len() <= 64,
            forall|j: int| 0 <= j < i ==> !#[trigger] nine_at(s@, j),
        decreases s@.len() - i,
    {
        let mut k: usize = 0;
        while k < 9 && i + k < s.len() && '0' <= s[i + k] && s[i + k] <= '9'
            invariant
                k <= 9,
                i < s@.len() <= 64,
                i + k <= s@.len(),
                forall|m: int| 0 <= m < k ==> #[trigger] digit_at(s@, i + m),
            decreases 9 - k,
        {
            k = k + 1;
        }
        if k == 9 {
            assert(nine_at(s@, i as int));
            return false;
        }
        proof {
            if nine_at(s@, i as int) {
                assert(digit_at(s@, i + k));
            }
        }
        i = i + 1;
    }
    true
}

/// Whether a value is what an argument has to be.
pub open spec fn fits(care: Care, t: NativeTree) -> bool {
    match care {
        Care::Free => true,
        Care::Sound => match t {
            NativeTree::String(s) => timestamp::calm(s) && !dashed(s),
            _ => true,
        },
        Care::Ascii => match t {
            NativeTree::String(s) => ascii(s),
            _ => true,
        },
        Care::Interval => match t {
            NativeTree::Integer(i) => -0x20_0000_0000_0000 <= i <= 0x20_0000_0000_0000,
            NativeTree::String(s) => moderate(s),
            _ => true,
        },
        Care::Size => match t {
            NativeTree::Integer(i) => 1 <= i <= 0xfff_ffff,
            NativeTree::Null => true,
            NativeTree::Array(_) => true,
            NativeTree::Object(_) => true,
            _ => false,
        },
    }
}

fn does_fit(care: Care, v: nodedb_types::Value) -> (r: bool)
    ensures
        r == fits(care, render::native_tree(v)),
{
    let level = render::native_level(v);
    match care {
        Care::Free => true,
        Care::Sound => match level {
            NativeLevel::String(s) => {
                let chars = text::chars_of(s.as_str());
                timestamp::is_calm(chars.as_slice()) && !is_dashed(chars.as_slice())
            },
            _ => true,
        },
        Care::Ascii => match level {
            NativeLevel::String(s) => is_ascii(text::chars_of(s.as_str()).as_slice()),
            _ => true,
        },
        Care::Interval => match level {
            NativeLevel::Integer(i) => -0x20_0000_0000_0000 <= i && i <= 0x20_0000_0000_0000,
            NativeLevel::String(s) => is_moderate(text::chars_of(s.as_str()).as_slice()),
            _ => true,
        },
        Care::Size => match level {
            NativeLevel::Integer(i) => 1 <= i && i <= 0xfff_ffff,
            NativeLevel::Null => true,
            NativeLevel::Array(_) => true,
            NativeLevel::Object(_) => true,
            _ => false,
        },
    }
}

/// Whether an argument is, for a row, what it has to be. Of one that is not
/// steady that is known where it is a call of a function that yields nothing
/// else.
pub open spec fn suits(care: Care, t: ExprTree, doc: nodedb_types::Value) -> bool {
    ||| care == Care::Free
    ||| care != Care::Size && t.call is Some && plain_call(t.call->0)
    ||| steady_tree(t) && fits(care, render::native_tree(expr_value(t.expr, doc)))
}

/// Whether each part of an expression answers for a row.
pub open spec fn answers(t: ExprTree, doc: nodedb_types::Value) -> bool
    decreases t,
{
    forall|i: int|
        0 <= i < t.parts.len() ==> answers(#[trigger] t.parts[i], doc) && (t.call is Some ==> suits(
            care(t.call->0, i),
            t.parts[i],
            doc,
        ))
}

/// Calls `SqlExpr::eval`, which answers where each part of the expression does.
/// The value of a steady expression is the one named [`expr_value`]. Any other
/// value is left open, since it may depend on the time.
#[verifier::external_body]
pub(crate) fn evaluate(expr: &SqlExpr, doc: &nodedb_types::Value) -> (r: nodedb_types::Value)
    requires
        answers(expr_tree(*expr), *doc),
    ensures
        steady(*expr) ==> r == expr_value(*expr, *doc),
{
    expr.eval(doc)
}

/// Takes an expression apart: the function that it calls and its parts.
fn take_apart(expr: &SqlExpr) -> (r: (Option<String>, Vec<SqlExpr>))
    ensures
        expr_tree(*expr).expr == *expr,
        match r.0 {
            Some(name) => expr_tree(*expr).call == Some(name@),
            None => expr_tree(*expr).call is None,
        },
        expr_tree(*expr).parts == trees(r.1@),
{
    match expr_shape(expr) {
        ExprShape::Call(name, args) => (Some(name), args),
        ExprShape::Parts(parts) => (None, parts),
        ExprShape::Case(operand, pairs, rest) => {
            let mut out: Vec<SqlExpr> = Vec::new();
            let ghost first = if_any(operand);
            let ghost all = pairs@;
            let ghost last = if_any(rest);
            if let Some(e) = operand {
                out.push(*e);
            }
            assert(out@ =~= first + branches(all.take(0)));
            for pair in it: pairs
                invariant
                    it.seq() == all,
                    out@ == first + branches(all.take(it.index@)),
            {
                let ghost before = out@;
                proof {
                    let n = it.index@;
                    assert(all.take(n + 1).drop_last() =~= all.take(n));
                    assert(all.take(n + 1).last() == pair);
                }
                out.push(pair.0);
                out.push(pair.1);
                proof {
                    assert(out@ =~= first + branches(all.take(it.index@ + 1)));
                }
            }
            assert(all.take(all.len() as int) =~= all);
            if let Some(e) = rest {
                out.push(*e);
            }
            assert(out@ =~= first + branches(all) + last);
            (None, out)
        },
    }
}

/// Whether an expression is steady.
pub fn is_steady(expr: &SqlExpr) -> (r: bool)
    ensures
        r == steady(*expr),
    decreases expr_tree(*expr),
{
    let ghost t = expr_tree(*expr);
    let (call, parts) = take_apart(expr);
    if let Some(name) = &call {
        if !is_steady_call(name.as_str()) {
            return false;
        }
    }
    let mut i: usize = 0;
    while i < parts.len()
        invariant
            i <= parts@.len(),
            t == expr_tree(*expr),
            t.parts == trees(parts@),
            forall|j: int| 0 <= j < i ==> steady_tree(#[trigger] t.parts[j]),
        decreases parts@.len() - i,
    {
        assert(t.parts[i as int] == expr_tree(parts@[i as int]));
        if !is_steady(&parts[i]) {
            return false;
        }
        i = i + 1;
    }
    true
}

/// Whether an argument, which answers for a row, is what it has to be.
fn does_suit(care: Care, expr: &SqlExpr, doc: &nodedb_types::Value) -> (r: bool)
    requires
        answers(expr_tree(*expr), *doc),
    ensures
        r == suits(care, expr_tree(*expr), *doc),
{
    if care == Care::Free {
        return true;
    }
    let (call, _) = take_apart(expr);
    if let Some(name) = &call {
        if care != Care::Size && is_plain_call(name.as_str()) {
            return true;
        }
    }
    if !is_steady(expr) {
        return false;
    }
    does_fit(care, evaluate(expr, doc))
}

/// Whether each part of an expression answers for a row.
pub fn can_answer(expr: &SqlExpr, doc: &nodedb_types::Value) -> (r: bool)
    ensures
        r == answers(expr_tree(*expr), *doc),
    decreases expr_tree(*expr),
{
    let ghost t = expr_tree(*expr);
    let (call, parts) = take_apart(expr);
    let mut i: usize = 0;
    while i < parts.len()
        invariant
            i <= parts@.len(),
            t == expr_tree(*expr),
            t.parts == trees(parts@),
            match call {
                Some(name) => t.call == Some(name@),
                None => t.call is None,
            },
            forall|j: int|
                0 <= j < i ==> answers(#[trigger] t.parts[j], *doc) && (t.call is Some ==> suits(
                    care(t.call->0, j),
                    t.parts[j],
                    *doc,
                )),
        decreases parts@.len() - i,
    {
        assert(t.parts[i as int] == expr_tree(parts@[i as int]));
        if !can_answer(&parts[i], doc) {
            return false;
        }
        if let Some(name) = &call {
            if !does_suit(care_of(name.as_str(), i), &parts[i], doc) {
                return false;
            }
        }
        i = i + 1;
    }
    true
}

} // verus!
