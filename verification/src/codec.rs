//! The value codec: parsing field strings into typed scalar values.
//!
//! The grammar is plain decimal: one or more ASCII digits, with an optional
//! leading `'-'` for signed types. A type that can be read from a field
//! implements [`ParseField`], whose specification pins the parsed value down
//! exactly; parsing fails (returns `None`) on any other input, including
//! overflow.

use vstd::prelude::*;

use crate::text::spec_trim;
use crate::text::trim;
use crate::text::views;

verus! {

/// Whether `c` is an ASCII decimal digit.
pub open spec fn is_digit(c: char) -> bool {
    '0' <= c && c <= '9'
}

/// The numeric value of a digit character.
pub open spec fn digit_val(c: char) -> nat {
    (c as int - '0' as int) as nat
}

/// Whether every character of `s` is a decimal digit.
pub open spec fn all_digits(s: Seq<char>) -> bool {
    forall|i: int| 0 <= i < s.len() ==> is_digit(#[trigger] s[i])
}

/// The unbounded value of a digit string, most significant digit first.
pub open spec fn digits_val(s: Seq<char>) -> nat
    decreases s.len(),
{
    if s.len() == 0 {
        0
    } else {
        digits_val(s.drop_last()) * 10 + digit_val(s.last())
    }
}

/// The value of a digit string never falls when more digits follow.
pub proof fn lemma_digits_val_prefix(s: Seq<char>, j: int)
    requires
        0 <= j <= s.len(),
    ensures
        digits_val(s) >= digits_val(s.take(j)),
    decreases s.len() - j,
{
    if j < s.len() {
        assert(s.take(j + 1).drop_last() =~= s.take(j));
        assert(s.take(j + 1).last() == s[j]);
        assert(digits_val(s.take(j + 1)) == digits_val(s.take(j)) * 10 + digit_val(s[j]));
        lemma_digits_val_prefix(s, j + 1);
    } else {
        assert(s.take(j) =~= s);
    }
}

/// A type whose values can be read from a single field string.
pub trait ParseField: Sized {
    /// The value denoted by `s`, or `None` when `s` is not a numeral of this
    /// type or its value does not fit.
    spec fn parse_spec(s: Seq<char>) -> Option<Self>;

    /// Parses `s`, returning exactly what [`Self::parse_spec`] denotes.
    fn parse_field(s: &str) -> (r: Option<Self>)
        ensures
            r == Self::parse_spec(s@),
    ;
}

/// Reads an unsigned run of digits; `None` when `s` is empty, holds a
/// non-digit, or its value exceeds `u64::MAX`.
pub fn parse_digits(s: &str) -> (r: Option<u64>)
    ensures
        match r {
            Some(v) => s@.len() > 0 && all_digits(s@) && digits_val(s@) <= u64::MAX && v
                == digits_val(s@),
            None => !(s@.len() > 0 && all_digits(s@) && digits_val(s@) <= u64::MAX),
        },
{
    let n = s.unicode_len();
    if n == 0 {
        return None;
    }
    let mut acc: u64 = 0;
    let mut i: usize = 0;
    proof {
        assert(s@.take(0) =~= Seq::<char>::empty());
    }
    while i < n
        invariant
            i <= n,
            n == s@.len(),
            all_digits(s@.take(i as int)),
            acc == digits_val(s@.take(i as int)),
        decreases n - i,
    {
        let c = s.get_char(i);
        proof {
            assert(s@.take(i + 1).drop_last() =~= s@.take(i as int));
            assert(s@.take(i + 1).last() == s@[i as int]);
        }
        if !('0' <= c && c <= '9') {
            proof {
                assert(!is_digit(s@[i as int]));
                assert(!all_digits(s@));
            }
            return None;
        }
        let d = (c as u32 - '0' as u32) as u64;
        proof {
            assert(d == digit_val(s@[i as int]));
        }
        let next = match acc.checked_mul(10) {
            Some(m) => m.checked_add(d),
            None => None,
        };
        match next {
            Some(v) => {
                acc = v;
            },
            None => {
                proof {
                    assert(digits_val(s@.take(i + 1)) > u64::MAX);
                    lemma_digits_val_prefix(s@, i + 1);
                    assert(digits_val(s@) > u64::MAX);
                }
                return None;
            },
        }
        proof {
            assert forall|j: int| 0 <= j < i + 1 implies is_digit(#[trigger] s@.take(i + 1)[j]) by {
                if j < i {
                    assert(s@.take(i + 1)[j] == s@.take(i as int)[j]);
                }
            }
        }
        i = i + 1;
    }
    proof {
        assert(s@.take(n as int) =~= s@);
    }
    Some(acc)
}

impl ParseField for u64 {
    open spec fn parse_spec(s: Seq<char>) -> Option<u64> {
        if s.len() > 0 && all_digits(s) && digits_val(s) <= u64::MAX {
            Some(digits_val(s) as u64)
        } else {
            None
        }
    }

    fn parse_field(s: &str) -> (r: Option<u64>) {
        parse_digits(s)
    }
}

impl ParseField for usize {
    open spec fn parse_spec(s: Seq<char>) -> Option<usize> {
        if s.len() > 0 && all_digits(s) && digits_val(s) <= usize::MAX {
            Some(digits_val(s) as usize)
        } else {
            None
        }
    }

    fn parse_field(s: &str) -> (r: Option<usize>) {
        match parse_digits(s) {
            Some(v) => {
                if v <= usize::MAX as u64 {
                    Some(v as usize)
                } else {
                    None
                }
            },
            None => {
                proof {
                    if s@.len() > 0 && all_digits(s@) && digits_val(s@) <= usize::MAX {
                        assert(digits_val(s@) <= u64::MAX);
                    }
                }
                None
            },
        }
    }
}

impl ParseField for i64 {
    open spec fn parse_spec(s: Seq<char>) -> Option<i64> {
        if s.len() > 0 && s[0] == '-' {
            let t = s.drop_first();
            if t.len() > 0 && all_digits(t) && digits_val(t) <= 0x8000_0000_0000_0000 {
                Some((-(digits_val(t) as int)) as i64)
            } else {
                None
            }
        } else if s.len() > 0 && all_digits(s) && digits_val(s) <= i64::MAX {
            Some(digits_val(s) as i64)
        } else {
            None
        }
    }

    fn parse_field(s: &str) -> (r: Option<i64>) {
        let n = s.unicode_len();
        if n == 0 {
            return None;
        }
        if s.get_char(0) == '-' {
            let rest = s.substring_char(1, n);
            proof {
                assert(rest@ =~= s@.drop_first());
            }
            match parse_digits(rest) {
                Some(v) => {
                    if v <= 0x8000_0000_0000_0000 {
                        if v == 0x8000_0000_0000_0000 {
                            Some(i64::MIN)
                        } else {
                            Some(-(v as i64))
                        }
                    } else {
                        None
                    }
                },
                None => None,
            }
        } else {
            proof {
                assert(s@[0] != '-');
                if s@.len() > 0 && all_digits(s@) && digits_val(s@) <= i64::MAX {
                    assert(digits_val(s@) <= u64::MAX);
                }
            }
            match parse_digits(s) {
                Some(v) => {
                    if v <= i64::MAX as u64 {
                        Some(v as i64)
                    } else {
                        None
                    }
                },
                None => None,
            }
        }
    }
}

/// The element-wise parse of a sequence of fields, each trimmed first:
/// `Some` exactly when every field parses, in which case the values appear
/// in field order.
pub open spec fn parse_all<T: ParseField>(fields: Seq<Seq<char>>) -> Option<Seq<T>> {
    if forall|i: int|
        0 <= i < fields.len() ==> (#[trigger] T::parse_spec(spec_trim(fields[i]))) is Some {
        Some(Seq::new(fields.len(), |i: int| T::parse_spec(spec_trim(fields[i])).unwrap()))
    } else {
        None
    }
}

/// Trims and parses every field of a line; `None` exactly when some field
/// does not parse.
pub fn parse_fields<T: ParseField>(fields: &Vec<String>) -> (r: Option<Vec<T>>)
    ensures
        match r {
            Some(vs) => parse_all::<T>(views(fields@)) == Some(vs@),
            None => parse_all::<T>(views(fields@)) is None,
        },
{
    let mut out: Vec<T> = Vec::new();
    let mut i: usize = 0;
    while i < fields.len()
        invariant
            i <= fields@.len(),
            out@.len() == i,
            forall|j: int|
                0 <= j < i ==> (#[trigger] T::parse_spec(spec_trim(views(fields@)[j]))) is Some
                    && out@[j] == T::parse_spec(spec_trim(views(fields@)[j])).unwrap(),
        decreases fields@.len() - i,
    {
        let t = trim(fields[i].as_str());
        match T::parse_field(t) {
            Some(x) => {
                out.push(x);
            },
            None => {
                proof {
                    assert(T::parse_spec(spec_trim(views(fields@)[i as int])) is None);
                }
                return None;
            },
        }
        i = i + 1;
    }
    proof {
        assert(out@ =~= Seq::new(
            views(fields@).len(),
            |j: int| T::parse_spec(spec_trim(views(fields@)[j])).unwrap(),
        ));
    }
    Some(out)
}

} // verus!
