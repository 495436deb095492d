//! Field naming: the JSON key of a field and the column type of its declared type.

use vstd::prelude::*;
use crate::text::{
    ascii_upper, chars_eq, chars_without_spaces, contains_chars, has_infix, strip_spaces, upper_of,
};

verus! {

/// The lower-camel-case form of the rest `s` of a name; `cap` says that the
/// previous character was an underscore.
pub open spec fn camel_from(s: Seq<char>, cap: bool) -> Seq<char>
    decreases s.len(),
{
    if s.len() == 0 {
        Seq::empty()
    } else if s[0] == '_' {
        camel_from(s.drop_first(), true)
    } else if cap {
        seq![upper_of(s[0])] + camel_from(s.drop_first(), false)
    } else {
        seq![s[0]] + camel_from(s.drop_first(), false)
    }
}

/// The lower-camel-case form of an underscore-separated name: underscores
/// are dropped and the character after each is upper-cased.
pub open spec fn camel_of(s: Seq<char>) -> Seq<char> {
    camel_from(s, false)
}

/// Converts an underscore-separated name to lower camel case.
pub fn to_camel_case(s: &str) -> (r: String)
    ensures
        r@ == camel_of(s@),
{
    let mut result = String::new();
    let mut cap = false;
    let n = s.unicode_len();
    let mut i: usize = 0;
    assert(s@.skip(0) =~= s@);
    assert(result@ + camel_from(s@, false) =~= camel_from(s@, false));
    while i < n
        invariant
            n == s@.len(),
            i <= n,
            result@ + camel_from(s@.skip(i as int), cap) == camel_of(s@),
        decreases n - i,
    {
        let c = s.get_char(i);
        let ghost prev = result@;
        let ghost tail = camel_from(s@.skip(i + 1), false);
        assert(s@.skip(i as int).drop_first() =~= s@.skip(i + 1));
        assert(s@.skip(i as int)[0] == c);
        if c == '_' {
            cap = true;
        } else if cap {
            let u = ascii_upper(c);
            result.push(u);
            cap = false;
            assert(prev.push(u) + tail =~= prev + (seq![u] + tail));
        } else {
            result.push(c);
            assert(prev.push(c) + tail =~= prev + (seq![c] + tail));
        }
        i = i + 1;
    }
    assert(s@.skip(n as int) =~= Seq::<char>::empty());
    result
}

/// The column types a storable field can have.
#[derive(Debug, Clone, Copy, PartialEq, Eq, Structural)]
pub enum ColumnType {
    Text,
    Datetime,
    Bigint,
    Integer,
    Boolean,
    Json,
}

/// The name of a column type, as backends read it.
pub open spec fn column_declared(t: ColumnType) -> Seq<char> {
    match t {
        ColumnType::Text => seq!['t', 'e', 'x', 't'],
        ColumnType::Datetime => seq!['d', 'a', 't', 'e', 't', 'i', 'm', 'e'],
        ColumnType::Bigint => seq!['b', 'i', 'g', 'i', 'n', 't'],
        ColumnType::Integer => seq!['i', 'n', 't', 'e', 'g', 'e', 'r'],
        ColumnType::Boolean => seq!['b', 'o', 'o', 'l', 'e', 'a', 'n'],
        ColumnType::Json => seq!['j', 's', 'o', 'n'],
    }
}

impl ColumnType {
    /// The name of this column type.
    pub fn name(&self) -> (r: String)
        ensures
            r@ == column_declared(*self),
    {
        let chars: Vec<char> = match self {
            ColumnType::Text => vec!['t', 'e', 'x', 't'],
            ColumnType::Datetime => vec!['d', 'a', 't', 'e', 't', 'i', 'm', 'e'],
            ColumnType::Bigint => vec!['b', 'i', 'g', 'i', 'n', 't'],
            ColumnType::Integer => vec!['i', 'n', 't', 'e', 'g', 'e', 'r'],
            ColumnType::Boolean => vec!['b', 'o', 'o', 'l', 'e', 'a', 'n'],
            ColumnType::Json => vec!['j', 's', 'o', 'n'],
        };
        let r = string_of_chars(&chars);
        assert(r@ =~= column_declared(*self));
        r
    }
}

/// A string holding the characters `cs`.
pub fn string_of_chars(cs: &Vec<char>) -> (r: String)
    ensures
        r@ == cs@,
{
    let mut out = String::new();
    let mut i: usize = 0;
    while i < cs.len()
        invariant
            i <= cs@.len(),
            out@ == cs@.subrange(0, i as int),
        decreases cs@.len() - i,
    {
        out.push(cs[i]);
        assert(cs@.subrange(0, i + 1) =~= cs@.subrange(0, i as int).push(cs@[i as int]));
        i = i + 1;
    }
    assert(cs@.subrange(0, cs@.len() as int) =~= cs@);
    out
}

pub open spec fn option_open() -> Seq<char> {
    seq!['O', 'p', 't', 'i', 'o', 'n', '<']
}

/// The type inside an `Option<..>` wrapper, or the type itself.
pub open spec fn unwrap_option(t: Seq<char>) -> Seq<char> {
    if t.len() >= 8 && t.subrange(0, 7) == option_open() && t.last() == '>' {
        t.subrange(7, t.len() - 1)
    } else {
        t
    }
}

/// The column type of a field, by the name of its declared type: 64-bit
/// integers are `bigint`, 32-bit and machine-word integers `integer`, `bool`
/// is `boolean`, a name holding `Datetime` or `DateTime` (also inside an
/// `Option`) is `datetime`, and anything else is `text`.
pub open spec fn column_type_of(declared: Seq<char>) -> ColumnType {
    let t = unwrap_option(strip_spaces(declared));
    if has_infix(t, seq!['D', 'a', 't', 'e', 't', 'i', 'm', 'e']) || has_infix(
        t,
        seq!['D', 'a', 't', 'e', 'T', 'i', 'm', 'e'],
    ) {
        ColumnType::Datetime
    } else if t == seq!['u', '6', '4'] || t == seq!['i', '6', '4'] {
        ColumnType::Bigint
    } else if t == seq!['u', '3', '2'] || t == seq!['i', '3', '2'] || t == seq![
        'u',
        's',
        'i',
        'z',
        'e',
    ] || t == seq!['i', 's', 'i', 'z', 'e'] {
        ColumnType::Integer
    } else if t == seq!['b', 'o', 'o', 'l'] {
        ColumnType::Boolean
    } else {
        ColumnType::Text
    }
}

/// The characters of a declared type without spaces and without an
/// `Option<..>` wrapper.
fn unwrapped_type(declared: &str) -> (t: Vec<char>)
    ensures
        t@ == unwrap_option(strip_spaces(declared@)),
{
    let stripped = chars_without_spaces(declared);
    let open = vec!['O', 'p', 't', 'i', 'o', 'n', '<'];
    let len = stripped.len();
    let t: Vec<char> = if len >= 8 && crate::text::matches_at(&stripped, 0, &open) && stripped[len - 1] == '>' {
        assert(stripped@.subrange(0, 7) =~= option_open());
        let mut inner: Vec<char> = Vec::new();
        let mut i: usize = 7;
        while i < len - 1
            invariant
                7 <= i <= len - 1,
                len == stripped@.len(),
                inner@ == stripped@.subrange(7, i as int),
            decreases len - 1 - i,
        {
            inner.push(stripped[i]);
            assert(stripped@.subrange(7, i + 1) =~= stripped@.subrange(7, i as int).push(stripped@[i as int]));
            i = i + 1;
        }
        inner
    } else {
        proof {
            if len >= 8 && stripped@.last() == '>' {
                assert(open@ =~= option_open());
            }
        }
        stripped
    };
    assert(t@ == unwrap_option(strip_spaces(declared@)));
    t
}

/// Infers the column type of a field from the name of its declared type.
pub fn rust_type_to_sql_type(declared: &str) -> (r: ColumnType)
    ensures
        r == column_type_of(declared@),
{
    let t = unwrapped_type(declared);
    if contains_chars(&t, &vec!['D', 'a', 't', 'e', 't', 'i', 'm', 'e']) || contains_chars(
        &t,
        &vec!['D', 'a', 't', 'e', 'T', 'i', 'm', 'e'],
    ) {
        ColumnType::Datetime
    } else if chars_eq(&t, &vec!['u', '6', '4']) || chars_eq(&t, &vec!['i', '6', '4']) {
        ColumnType::Bigint
    } else if chars_eq(&t, &vec!['u', '3', '2']) || chars_eq(&t, &vec!['i', '3', '2']) || chars_eq(
        &t,
        &vec!['u', 's', 'i', 'z', 'e'],
    ) || chars_eq(&t, &vec!['i', 's', 'i', 'z', 'e']) {
        ColumnType::Integer
    } else if chars_eq(&t, &vec!['b', 'o', 'o', 'l']) {
        ColumnType::Boolean
    } else {
        ColumnType::Text
    }
}

/// Whether a declared type is an unsigned integer, also inside an `Option`.
pub open spec fn unsigned_declared(declared: Seq<char>) -> bool {
    let t = unwrap_option(strip_spaces(declared));
    t == seq!['u', '6', '4'] || t == seq!['u', '3', '2'] || t == seq!['u', 's', 'i', 'z', 'e']
}

/// Whether a declared type is an unsigned integer, also inside an `Option`.
pub fn is_unsigned_type(declared: &str) -> (r: bool)
    ensures
        r == unsigned_declared(declared@),
{
    let t = unwrapped_type(declared);
    chars_eq(&t, &vec!['u', '6', '4']) || chars_eq(&t, &vec!['u', '3', '2']) || chars_eq(
        &t,
        &vec!['u', 's', 'i', 'z', 'e'],
    )
}

} // verus!
