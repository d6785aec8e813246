//! The semantic type lattice and the compatibility relation.
use vstd::prelude::*;
use vstd::string::StringExecFns;
use crate::dialect::SqlDialect;
use crate::text::{chars_of, char_upper, upper, vec_eq};

verus! {

/// A semantic SQL type. Length, precision and scale are kept where given.
#[derive(Debug, PartialEq, Eq)]
pub enum SqlType {
    SmallInt,
    Integer,
    BigInt,
    Decimal { precision: Option<u32>, scale: Option<u32> },
    Real,
    Double,
    TinyInt,
    MediumInt,
    Char(Option<u32>),
    Varchar(Option<u32>),
    Text,
    Date,
    Time,
    Timestamp,
    TimestampTz,
    Interval,
    Boolean,
    Uuid,
    Bytea,
    Json,
    Jsonb,
    Array(Box<SqlType>),
    Enum(String),
    Custom(String),
    Unknown,
}

/// Groups of mutually compatible types.
#[derive(Debug, Clone, Copy, PartialEq, Eq, Structural)]
pub enum TypeFamily {
    Numeric,
    Text,
    DateTime,
    Time,
    Interval,
    Boolean,
    Uuid,
    Binary,
    Json,
    Array,
    Enum,
    Custom,
    Unknown,
}

pub open spec fn family_of(t: SqlType) -> TypeFamily {
    match t {
        SqlType::SmallInt | SqlType::Integer | SqlType::BigInt | SqlType::Decimal { .. }
        | SqlType::Real | SqlType::Double | SqlType::TinyInt | SqlType::MediumInt => TypeFamily::Numeric,
        SqlType::Char(_) | SqlType::Varchar(_) | SqlType::Text => TypeFamily::Text,
        SqlType::Date | SqlType::Timestamp | SqlType::TimestampTz => TypeFamily::DateTime,
        SqlType::Time => TypeFamily::Time,
        SqlType::Interval => TypeFamily::Interval,
        SqlType::Boolean => TypeFamily::Boolean,
        SqlType::Uuid => TypeFamily::Uuid,
        SqlType::Bytea => TypeFamily::Binary,
        SqlType::Json | SqlType::Jsonb => TypeFamily::Json,
        SqlType::Array(_) => TypeFamily::Array,
        SqlType::Enum(_) => TypeFamily::Enum,
        SqlType::Custom(_) => TypeFamily::Custom,
        SqlType::Unknown => TypeFamily::Unknown,
    }
}

/// Whether values of types `a` and `b` may be compared or assigned: either
/// is unknown, or both are in one family (arrays: element types compatible
/// in turn).
pub open spec fn compatible(a: SqlType, b: SqlType) -> bool
    decreases a,
{
    match (a, b) {
        (SqlType::Unknown, _) | (_, SqlType::Unknown) => true,
        (SqlType::Array(x), SqlType::Array(y)) => compatible(*x, *y),
        _ => family_of(a) == family_of(b),
    }
}

impl SqlType {
    /// The family this type belongs to.
    pub fn family(&self) -> (r: TypeFamily)
        ensures
            r == family_of(*self),
    {
        match self {
            SqlType::SmallInt | SqlType::Integer | SqlType::BigInt | SqlType::Decimal { .. }
            | SqlType::Real | SqlType::Double | SqlType::TinyInt
            | SqlType::MediumInt => TypeFamily::Numeric,
            SqlType::Char(_) | SqlType::Varchar(_) | SqlType::Text => TypeFamily::Text,
            SqlType::Date | SqlType::Timestamp | SqlType::TimestampTz => TypeFamily::DateTime,
            SqlType::Time => TypeFamily::Time,
            SqlType::Interval => TypeFamily::Interval,
            SqlType::Boolean => TypeFamily::Boolean,
            SqlType::Uuid => TypeFamily::Uuid,
            SqlType::Bytea => TypeFamily::Binary,
            SqlType::Json | SqlType::Jsonb => TypeFamily::Json,
            SqlType::Array(_) => TypeFamily::Array,
            SqlType::Enum(_) => TypeFamily::Enum,
            SqlType::Custom(_) => TypeFamily::Custom,
            SqlType::Unknown => TypeFamily::Unknown,
        }
    }

    /// Whether this type is compatible with `other`.
    pub fn is_compatible_with(&self, other: &SqlType) -> (r: bool)
        ensures
            r == compatible(*self, *other),
        decreases *self,
    {
        match (self, other) {
            (SqlType::Unknown, _) | (_, SqlType::Unknown) => true,
            (SqlType::Array(x), SqlType::Array(y)) => (**x).is_compatible_with(&**y),
            _ => self.family() == other.family(),
        }
    }
}

/// The name shown for a type: the SQL keyword in lower case, the type's
/// own name for enum and custom types, `[]` after the element for arrays.
pub open spec fn shown_name(t: SqlType) -> Seq<char>
    decreases t,
{
    match t {
        SqlType::SmallInt => "smallint"@,
        SqlType::Integer => "integer"@,
        SqlType::BigInt => "bigint"@,
        SqlType::Decimal { .. } => "numeric"@,
        SqlType::Real => "real"@,
        SqlType::Double => "double precision"@,
        SqlType::TinyInt => "tinyint"@,
        SqlType::MediumInt => "mediumint"@,
        SqlType::Char(_) => "char"@,
        SqlType::Varchar(_) => "varchar"@,
        SqlType::Text => "text"@,
        SqlType::Date => "date"@,
        SqlType::Time => "time"@,
        SqlType::Timestamp => "timestamp"@,
        SqlType::TimestampTz => "timestamptz"@,
        SqlType::Interval => "interval"@,
        SqlType::Boolean => "boolean"@,
        SqlType::Uuid => "uuid"@,
        SqlType::Bytea => "bytea"@,
        SqlType::Json => "json"@,
        SqlType::Jsonb => "jsonb"@,
        SqlType::Array(x) => shown_name(*x) + "[]"@,
        SqlType::Enum(n) => n@,
        SqlType::Custom(n) => n@,
        SqlType::Unknown => "unknown"@,
    }
}

impl SqlType {
    /// The name shown for this type.
    pub fn display_name(&self) -> (r: String)
        ensures
            r@ == shown_name(*self),
        decreases *self,
    {
        match self {
            SqlType::SmallInt => String::from_str("smallint"),
            SqlType::Integer => String::from_str("integer"),
            SqlType::BigInt => String::from_str("bigint"),
            SqlType::Decimal { .. } => String::from_str("numeric"),
            SqlType::Real => String::from_str("real"),
            SqlType::Double => String::from_str("double precision"),
            SqlType::TinyInt => String::from_str("tinyint"),
            SqlType::MediumInt => String::from_str("mediumint"),
            SqlType::Char(_) => String::from_str("char"),
            SqlType::Varchar(_) => String::from_str("varchar"),
            SqlType::Text => String::from_str("text"),
            SqlType::Date => String::from_str("date"),
            SqlType::Time => String::from_str("time"),
            SqlType::Timestamp => String::from_str("timestamp"),
            SqlType::TimestampTz => String::from_str("timestamptz"),
            SqlType::Interval => String::from_str("interval"),
            SqlType::Boolean => String::from_str("boolean"),
            SqlType::Uuid => String::from_str("uuid"),
            SqlType::Bytea => String::from_str("bytea"),
            SqlType::Json => String::from_str("json"),
            SqlType::Jsonb => String::from_str("jsonb"),
            SqlType::Array(x) => {
                let mut n = (**x).display_name();
                n.append("[]");
                n
            },
            SqlType::Enum(n) => n.clone(),
            SqlType::Custom(n) => n.clone(),
            SqlType::Unknown => String::from_str("unknown"),
        }
    }
}

/// Compatibility is reflexive.
pub proof fn lemma_compatible_reflexive(a: SqlType)
    ensures
        compatible(a, a),
    decreases a,
{
    if let SqlType::Array(x) = a {
        lemma_compatible_reflexive(*x);
    }
}

/// Compatibility is symmetric.
pub proof fn lemma_compatible_symmetric(a: SqlType, b: SqlType)
    ensures
        compatible(a, b) == compatible(b, a),
    decreases a,
{
    if let (SqlType::Array(x), SqlType::Array(y)) = (a, b) {
        lemma_compatible_symmetric(*x, *y);
    }
}

/// The type of a value being compared or assigned: `NULL`, a string literal
/// (noting whether it spells a UUID), or a typed expression.
#[derive(Debug)]
pub enum ValueType {
    Null,
    StringLiteral { is_uuid: bool },
    Typed(SqlType),
}

/// Whether a value of type `v` may be stored in, or compared with, a column
/// of type `target`.
pub open spec fn accepts(target: SqlType, v: ValueType) -> bool {
    match v {
        ValueType::Null => true,
        ValueType::StringLiteral { is_uuid } => match target {
            SqlType::Uuid => is_uuid,
            SqlType::Enum(_) | SqlType::Unknown | SqlType::Custom(_) => true,
            _ => family_of(target) == TypeFamily::Text || family_of(target) == TypeFamily::DateTime
                || family_of(target) == TypeFamily::Time || family_of(target) == TypeFamily::Interval
                || family_of(target) == TypeFamily::Json,
        },
        ValueType::Typed(t) => compatible(target, t),
    }
}

/// Whether a value of type `v` may be stored in a column of type `target`;
/// false means a type mismatch.
pub fn accepts_value(target: &SqlType, v: &ValueType) -> (r: bool)
    ensures
        r == accepts(*target, *v),
{
    match v {
        ValueType::Null => true,
        ValueType::StringLiteral { is_uuid } => match target {
            SqlType::Uuid => *is_uuid,
            SqlType::Enum(_) | SqlType::Unknown | SqlType::Custom(_) => true,
            _ => {
                let f = target.family();
                f == TypeFamily::Text || f == TypeFamily::DateTime || f == TypeFamily::Time
                    || f == TypeFamily::Interval || f == TypeFamily::Json
            },
        },
        ValueType::Typed(t) => target.is_compatible_with(t),
    }
}

pub open spec fn is_hex(c: char) -> bool {
    ('0' <= c && c <= '9') || ('a' <= c && c <= 'f') || ('A' <= c && c <= 'F')
}

/// Whether `s` is a UUID in canonical form: 32 hexadecimal digits in
/// groups of 8, 4, 4, 4 and 12, joined by `-`.
pub open spec fn is_uuid_text(s: Seq<char>) -> bool {
    s.len() == 36 && forall|i: int|
        0 <= i < 36 ==> if i == 8 || i == 13 || i == 18 || i == 23 {
            s[i] == '-'
        } else {
            is_hex(#[trigger] s[i])
        }
}

/// Whether `s` is a canonical 8-4-4-4-12 hexadecimal UUID.
pub fn is_uuid_literal(s: &str) -> (r: bool)
    ensures
        r == is_uuid_text(s@),
{
    let cs = chars_of(s);
    if cs.len() != 36 {
        return false;
    }
    let mut i: usize = 0;
    while i < 36
        invariant
            cs@ == s@,
            cs.len() == 36,
            i <= 36,
            forall|k: int|
                0 <= k < i ==> if k == 8 || k == 13 || k == 18 || k == 23 {
                    cs@[k] == '-'
                } else {
                    is_hex(#[trigger] cs@[k])
                },
        decreases 36 - i,
    {
        let c = cs[i];
        let ok = if i == 8 || i == 13 || i == 18 || i == 23 {
            c == '-'
        } else {
            ('0' <= c && c <= '9') || ('a' <= c && c <= 'f') || ('A' <= c && c <= 'F')
        };
        if !ok {
            return false;
        }
        i = i + 1;
    }
    true
}

/// The type of a string literal with text `s`.
pub fn string_literal_type(s: &str) -> (r: ValueType)
    ensures
        r == (ValueType::StringLiteral { is_uuid: is_uuid_text(s@) }),
{
    ValueType::StringLiteral { is_uuid: is_uuid_literal(s) }
}

/// The width of a numeric type: the result of arithmetic on two numbers has
/// the wider of their types.
pub open spec fn numeric_rank(t: SqlType) -> int {
    match t {
        SqlType::TinyInt => 0,
        SqlType::SmallInt => 1,
        SqlType::MediumInt => 2,
        SqlType::Integer => 3,
        SqlType::BigInt => 4,
        SqlType::Decimal { .. } => 5,
        SqlType::Real => 6,
        SqlType::Double => 7,
        _ => -1,
    }
}

fn rank(t: &SqlType) -> (r: i8)
    ensures
        r == numeric_rank(*t),
{
    match t {
        SqlType::TinyInt => 0,
        SqlType::SmallInt => 1,
        SqlType::MediumInt => 2,
        SqlType::Integer => 3,
        SqlType::BigInt => 4,
        SqlType::Decimal { .. } => 5,
        SqlType::Real => 6,
        SqlType::Double => 7,
        _ => -1,
    }
}

/// The type of `a op b` for an arithmetic operator: the wider operand type
/// when both are numeric, else unknown.
pub open spec fn arithmetic_type(a: SqlType, b: SqlType) -> SqlType {
    if numeric_rank(a) < 0 || numeric_rank(b) < 0 {
        SqlType::Unknown
    } else if numeric_rank(a) >= numeric_rank(b) {
        a
    } else {
        b
    }
}

pub fn arithmetic_result(a: &SqlType, b: &SqlType) -> (r: SqlType)
    ensures
        r == arithmetic_type(*a, *b),
{
    let ra = rank(a);
    let rb = rank(b);
    if ra < 0 || rb < 0 {
        SqlType::Unknown
    } else if ra >= rb {
        copy_type(a)
    } else {
        copy_type(b)
    }
}

/// A copy of `t`.
pub fn copy_type(t: &SqlType) -> (r: SqlType)
    ensures
        r == *t,
    decreases *t,
{
    match t {
        SqlType::SmallInt => SqlType::SmallInt,
        SqlType::Integer => SqlType::Integer,
        SqlType::BigInt => SqlType::BigInt,
        SqlType::Decimal { precision, scale } => SqlType::Decimal {
            precision: *precision,
            scale: *scale,
        },
        SqlType::Real => SqlType::Real,
        SqlType::Double => SqlType::Double,
        SqlType::TinyInt => SqlType::TinyInt,
        SqlType::MediumInt => SqlType::MediumInt,
        SqlType::Char(n) => SqlType::Char(*n),
        SqlType::Varchar(n) => SqlType::Varchar(*n),
        SqlType::Text => SqlType::Text,
        SqlType::Date => SqlType::Date,
        SqlType::Time => SqlType::Time,
        SqlType::Timestamp => SqlType::Timestamp,
        SqlType::TimestampTz => SqlType::TimestampTz,
        SqlType::Interval => SqlType::Interval,
        SqlType::Boolean => SqlType::Boolean,
        SqlType::Uuid => SqlType::Uuid,
        SqlType::Bytea => SqlType::Bytea,
        SqlType::Json => SqlType::Json,
        SqlType::Jsonb => SqlType::Jsonb,
        SqlType::Array(x) => SqlType::Array(Box::new(copy_type(&**x))),
        SqlType::Enum(n) => SqlType::Enum(n.clone()),
        SqlType::Custom(n) => SqlType::Custom(n.clone()),
        SqlType::Unknown => SqlType::Unknown,
    }
}

/// The type of `SUM` over values of type `t`.
pub open spec fn sum_type(t: SqlType) -> SqlType {
    match t {
        SqlType::TinyInt | SqlType::SmallInt | SqlType::MediumInt | SqlType::Integer
        | SqlType::BigInt => SqlType::BigInt,
        SqlType::Decimal { precision, scale } => SqlType::Decimal { precision, scale },
        SqlType::Real | SqlType::Double => SqlType::Double,
        _ => SqlType::Unknown,
    }
}

/// The first argument type that is not unknown, if any.
pub open spec fn first_known(args: Seq<SqlType>) -> SqlType
    decreases args.len(),
{
    if args.len() == 0 {
        SqlType::Unknown
    } else if !(args[0] is Unknown) {
        args[0]
    } else {
        first_known(args.drop_first())
    }
}

/// The return type of built-in function `name` (in any letter case) on
/// arguments of types `args`; unknown for functions not in the registry.
pub open spec fn function_type(name: Seq<char>, args: Seq<SqlType>) -> SqlType {
    let n = upper(name);
    if n == "COUNT"@ {
        SqlType::BigInt
    } else if n == "SUM"@ {
        if args.len() > 0 {
            sum_type(args[0])
        } else {
            SqlType::Unknown
        }
    } else if n == "AVG"@ {
        SqlType::Double
    } else if n == "MIN"@ || n == "MAX"@ {
        if args.len() > 0 {
            args[0]
        } else {
            SqlType::Unknown
        }
    } else if n == "UPPER"@ || n == "LOWER"@ || n == "CONCAT"@ || n == "SUBSTRING"@ {
        SqlType::Text
    } else if n == "LENGTH"@ || n == "CHAR_LENGTH"@ {
        SqlType::Integer
    } else if n == "COALESCE"@ {
        first_known(args)
    } else {
        SqlType::Unknown
    }
}

fn is_name(n: &Vec<char>, lit: &str) -> (r: bool)
    ensures
        r == (n@ == lit@),
{
    vec_eq(n, &chars_of(lit))
}

/// The return type of built-in function `name` on arguments of types `args`.
pub fn function_return_type(name: &str, args: &Vec<SqlType>) -> (r: SqlType)
    ensures
        r == function_type(name@, args@),
{
    let cs = chars_of(name);
    let mut n: Vec<char> = Vec::new();
    let mut i: usize = 0;
    while i < cs.len()
        invariant
            i <= cs.len(),
            cs@ == name@,
            n@ == upper(cs@.take(i as int)),
        decreases cs.len() - i,
    {
        n.push(char_upper(cs[i]));
        i = i + 1;
        assert(n@ =~= upper(cs@.take(i as int)));
    }
    assert(cs@.take(cs.len() as int) =~= cs@);
    if is_name(&n, "COUNT") {
        SqlType::BigInt
    } else if is_name(&n, "SUM") {
        if args.len() > 0 {
            match &args[0] {
                SqlType::TinyInt | SqlType::SmallInt | SqlType::MediumInt | SqlType::Integer
                | SqlType::BigInt => SqlType::BigInt,
                SqlType::Decimal { precision, scale } => SqlType::Decimal {
                    precision: *precision,
                    scale: *scale,
                },
                SqlType::Real | SqlType::Double => SqlType::Double,
                _ => SqlType::Unknown,
            }
        } else {
            SqlType::Unknown
        }
    } else if is_name(&n, "AVG") {
        SqlType::Double
    } else if is_name(&n, "MIN") || is_name(&n, "MAX") {
        if args.len() > 0 {
            copy_type(&args[0])
        } else {
            SqlType::Unknown
        }
    } else if is_name(&n, "UPPER") || is_name(&n, "LOWER") || is_name(&n, "CONCAT") || is_name(
        &n,
        "SUBSTRING",
    ) {
        SqlType::Text
    } else if is_name(&n, "LENGTH") || is_name(&n, "CHAR_LENGTH") {
        SqlType::Integer
    } else if is_name(&n, "COALESCE") {
        let mut k: usize = 0;
        assert(args@.skip(0) =~= args@);
        assert(function_type(name@, args@) == first_known(args@));
        while k < args.len()
            invariant
                function_type(name@, args@) == first_known(args@),
                k <= args.len(),
                first_known(args@) == first_known(args@.skip(k as int)),
            decreases args.len() - k,
        {
            proof {
                assert(args@.skip(k as int).drop_first() =~= args@.skip(k + 1));
            }
            if !matches!(args[k], SqlType::Unknown) {
                assert(args@.skip(k as int)[0] == args@[k as int]);
                return copy_type(&args[k]);
            }
            k = k + 1;
        }
        SqlType::Unknown
    } else {
        SqlType::Unknown
    }
}


/// Type keywords that only MySQL recognizes.
pub open spec fn mysql_only_keyword(n: Seq<char>) -> bool {
    n == "TINYINT"@ || n == "MEDIUMINT"@ || n == "TINYTEXT"@ || n == "MEDIUMTEXT"@ || n == "LONGTEXT"@
}

/// The type that keyword `name` (in any letter case) denotes under dialect
/// `d`; none for a name that is not a built-in type keyword there.
pub open spec fn keyword_type(d: SqlDialect, name: Seq<char>) -> Option<SqlType> {
    let n = upper(name);
    if n == "SMALLINT"@ || n == "INT2"@ || n == "SMALLSERIAL"@ {
        Some(SqlType::SmallInt)
    } else if n == "INTEGER"@ || n == "INT"@ || n == "INT4"@ || n == "SERIAL"@ {
        Some(SqlType::Integer)
    } else if n == "BIGINT"@ || n == "INT8"@ || n == "BIGSERIAL"@ {
        Some(SqlType::BigInt)
    } else if n == "DECIMAL"@ || n == "NUMERIC"@ {
        Some(SqlType::Decimal { precision: None, scale: None })
    } else if n == "REAL"@ || n == "FLOAT4"@ {
        Some(SqlType::Real)
    } else if n == "DOUBLE"@ || n == "DOUBLE PRECISION"@ || n == "FLOAT8"@ || n == "FLOAT"@ {
        Some(SqlType::Double)
    } else if n == "CHAR"@ || n == "CHARACTER"@ {
        Some(SqlType::Char(None))
    } else if n == "VARCHAR"@ || n == "CHARACTER VARYING"@ {
        Some(SqlType::Varchar(None))
    } else if n == "TEXT"@ {
        Some(SqlType::Text)
    } else if n == "DATE"@ {
        Some(SqlType::Date)
    } else if n == "TIME"@ {
        Some(SqlType::Time)
    } else if n == "TIMESTAMP"@ || n == "DATETIME"@ {
        Some(SqlType::Timestamp)
    } else if n == "TIMESTAMPTZ"@ {
        Some(SqlType::TimestampTz)
    } else if n == "INTERVAL"@ {
        Some(SqlType::Interval)
    } else if n == "BOOLEAN"@ || n == "BOOL"@ {
        Some(SqlType::Boolean)
    } else if n == "UUID"@ {
        Some(SqlType::Uuid)
    } else if n == "BYTEA"@ || n == "BLOB"@ {
        Some(SqlType::Bytea)
    } else if n == "JSON"@ {
        Some(SqlType::Json)
    } else if n == "JSONB"@ {
        Some(SqlType::Jsonb)
    } else if d == SqlDialect::MySQL && n == "TINYINT"@ {
        Some(SqlType::TinyInt)
    } else if d == SqlDialect::MySQL && n == "MEDIUMINT"@ {
        Some(SqlType::MediumInt)
    } else if d == SqlDialect::MySQL && (n == "TINYTEXT"@ || n == "MEDIUMTEXT"@ || n == "LONGTEXT"@) {
        Some(SqlType::Text)
    } else {
        None
    }
}

/// The type that keyword `name` denotes under `dialect`, if it is one.
pub fn type_for_keyword(dialect: SqlDialect, name: &str) -> (r: Option<SqlType>)
    ensures
        r == keyword_type(dialect, name@),
{
    let cs = chars_of(name);
    let mut n: Vec<char> = Vec::new();
    let mut i: usize = 0;
    while i < cs.len()
        invariant
            i <= cs.len(),
            cs@ == name@,
            n@ == upper(cs@.take(i as int)),
        decreases cs.len() - i,
    {
        n.push(char_upper(cs[i]));
        i = i + 1;
        assert(n@ =~= upper(cs@.take(i as int)));
    }
    assert(cs@.take(cs.len() as int) =~= cs@);
    let mysql = dialect == SqlDialect::MySQL;
    if is_name(&n, "SMALLINT") || is_name(&n, "INT2") || is_name(&n, "SMALLSERIAL") {
        Some(SqlType::SmallInt)
    } else if is_name(&n, "INTEGER") || is_name(&n, "INT") || is_name(&n, "INT4") || is_name(&n, "SERIAL") {
        Some(SqlType::Integer)
    } else if is_name(&n, "BIGINT") || is_name(&n, "INT8") || is_name(&n, "BIGSERIAL") {
        Some(SqlType::BigInt)
    } else if is_name(&n, "DECIMAL") || is_name(&n, "NUMERIC") {
        Some(SqlType::Decimal { precision: None, scale: None })
    } else if is_name(&n, "REAL") || is_name(&n, "FLOAT4") {
        Some(SqlType::Real)
    } else if is_name(&n, "DOUBLE") || is_name(&n, "DOUBLE PRECISION") || is_name(&n, "FLOAT8")
        || is_name(&n, "FLOAT") {
        Some(SqlType::Double)
    } else if is_name(&n, "CHAR") || is_name(&n, "CHARACTER") {
        Some(SqlType::Char(None))
    } else if is_name(&n, "VARCHAR") || is_name(&n, "CHARACTER VARYING") {
        Some(SqlType::Varchar(None))
    } else if is_name(&n, "TEXT") {
        Some(SqlType::Text)
    } else if is_name(&n, "DATE") {
        Some(SqlType::Date)
    } else if is_name(&n, "TIME") {
        Some(SqlType::Time)
    } else if is_name(&n, "TIMESTAMP") || is_name(&n, "DATETIME") {
        Some(SqlType::Timestamp)
    } else if is_name(&n, "TIMESTAMPTZ") {
        Some(SqlType::TimestampTz)
    } else if is_name(&n, "INTERVAL") {
        Some(SqlType::Interval)
    } else if is_name(&n, "BOOLEAN") || is_name(&n, "BOOL") {
        Some(SqlType::Boolean)
    } else if is_name(&n, "UUID") {
        Some(SqlType::Uuid)
    } else if is_name(&n, "BYTEA") || is_name(&n, "BLOB") {
        Some(SqlType::Bytea)
    } else if is_name(&n, "JSON") {
        Some(SqlType::Json)
    } else if is_name(&n, "JSONB") {
        Some(SqlType::Jsonb)
    } else if mysql && is_name(&n, "TINYINT") {
        Some(SqlType::TinyInt)
    } else if mysql && is_name(&n, "MEDIUMINT") {
        Some(SqlType::MediumInt)
    } else if mysql && (is_name(&n, "TINYTEXT") || is_name(&n, "MEDIUMTEXT") || is_name(&n, "LONGTEXT")) {
        Some(SqlType::Text)
    } else {
        None
    }
}

/// Dialect purity: apart from the keywords that only MySQL has, every type
/// keyword denotes the same type under every dialect.
pub proof fn lemma_dialect_purity(d1: SqlDialect, d2: SqlDialect, name: Seq<char>)
    requires
        !mysql_only_keyword(upper(name)),
    ensures
        keyword_type(d1, name) == keyword_type(d2, name),
{
}


/// Whether values of types `a` and `b` may be compared: NULL and two string
/// literals always may; otherwise the typed side must accept the other.
pub open spec fn comparable(a: ValueType, b: ValueType) -> bool {
    match (a, b) {
        (ValueType::Typed(t), v) => accepts(t, v),
        (v, ValueType::Typed(t)) => accepts(t, v),
        _ => true,
    }
}

/// Whether `a` and `b` may be compared; false means a type mismatch.
pub fn comparable_values(a: &ValueType, b: &ValueType) -> (r: bool)
    ensures
        r == comparable(*a, *b),
{
    match (a, b) {
        (ValueType::Typed(t), v) => accepts_value(t, v),
        (v, ValueType::Typed(t)) => accepts_value(t, v),
        _ => true,
    }
}

/// Comparability is symmetric.
pub proof fn lemma_comparable_symmetric(a: ValueType, b: ValueType)
    ensures
        comparable(a, b) == comparable(b, a),
{
    if let (ValueType::Typed(x), ValueType::Typed(y)) = (a, b) {
        lemma_compatible_symmetric(x, y);
    }
}

/// Whether numeric literal text has a fraction or an exponent.
pub open spec fn is_floating_text(s: Seq<char>) -> bool {
    exists|i: int| 0 <= i < s.len() && (s[i] == '.' || s[i] == 'e' || s[i] == 'E')
}

/// The type of a numeric literal: `Double` for one with a fraction or an
/// exponent, `Integer` otherwise.
pub fn number_literal_type(text: &str) -> (r: SqlType)
    ensures
        r == (if is_floating_text(text@) {
            SqlType::Double
        } else {
            SqlType::Integer
        }),
{
    let cs = chars_of(text);
    let mut i: usize = 0;
    while i < cs.len()
        invariant
            cs@ == text@,
            i <= cs.len(),
            forall|k: int| 0 <= k < i ==> !(cs@[k] == '.' || cs@[k] == 'e' || cs@[k] == 'E'),
        decreases cs.len() - i,
    {
        if cs[i] == '.' || cs[i] == 'e' || cs[i] == 'E' {
            return SqlType::Double;
        }
        i = i + 1;
    }
    SqlType::Integer
}

} // verus!
