//! The library-level laws: how queueing relates to resolving, how building
//! relates to reading back, and how a field overwrite relates to a fresh
//! read after commit. Each law is stated over the same spec functions the
//! session contracts use, so it composes directly with them.

use vstd::prelude::*;

use crate::codec::parse_all;
use crate::codec::ParseField;
use crate::fileapi::parse_line_spec;
use crate::text::coord_in_bounds;
use crate::text::field_at;
use crate::text::lemma_join_absent;
use crate::text::lemma_join_split;
use crate::text::lemma_lines_unlines;
use crate::text::lemma_split_absent;
use crate::text::lemma_split_join;
use crate::text::lemma_split_len;
use crate::text::lemma_split_no_delim;
use crate::text::spec_join;
use crate::text::spec_lines;
use crate::text::spec_split;
use crate::text::spec_trim;
use crate::text::spec_unlines;

verus! {

/// Law: for any coordinate within bounds, queueing it and then resolving
/// appends exactly the value found by splitting that line by the delimiter,
/// taking the field at that position, trimming, and parsing it to `T`.
pub proof fn lemma_queue_read_then_resolve<T: ParseField>(
    text: Seq<char>,
    d: char,
    queued: Seq<Seq<char>>,
    rs: Seq<T>,
    line: int,
    row: int,
)
    requires
        coord_in_bounds(text, d, line, row),
        parse_all::<T>(queued) == Some(rs),
        T::parse_spec(spec_trim(field_at(text, d, line, row))) is Some,
    ensures
        parse_all::<T>(queued.push(field_at(text, d, line, row))) == Some(
            rs.push(T::parse_spec(spec_trim(field_at(text, d, line, row))).unwrap()),
        ),
{
    let f = field_at(text, d, line, row);
    let q2 = queued.push(f);
    assert forall|i: int| 0 <= i < q2.len() implies (#[trigger] T::parse_spec(
        spec_trim(q2[i]),
    )) is Some by {
        if i < queued.len() {
            assert(q2[i] == queued[i]);
        } else {
            assert(q2[i] == f);
        }
    }
    let built = Seq::new(q2.len(), |i: int| T::parse_spec(spec_trim(q2[i])).unwrap());
    assert(parse_all::<T>(q2) == Some(built));
    let prev = Seq::new(queued.len(), |i: int| T::parse_spec(spec_trim(queued[i])).unwrap());
    assert(rs == prev);
    assert forall|i: int| 0 <= i < built.len() implies built[i] == rs.push(
        T::parse_spec(spec_trim(f)).unwrap(),
    )[i] by {
        if i < queued.len() {
            assert(q2[i] == queued[i]);
        } else {
            assert(q2[i] == f);
        }
    }
    assert(built =~= rs.push(T::parse_spec(spec_trim(f)).unwrap()));
}

/// Law: committing lines that contain no newline of their own and reading
/// the result back yields exactly those lines. Rendering is a function of
/// the lines alone, so repeating the commit writes identical bytes.
pub proof fn lemma_build_round_trip(ls: Seq<Seq<char>>)
    requires
        forall|i: int| 0 <= i < ls.len() ==> !(#[trigger] ls[i]).contains('\n'),
    ensures
        spec_lines(spec_unlines(ls)) == ls,
{
    lemma_lines_unlines(ls);
}

/// Law: the header of a freshly built file is exactly its first `len`
/// lines, parsed field-wise.
pub proof fn lemma_header_of_built<T: ParseField>(ls: Seq<Seq<char>>, d: char, len: int)
    requires
        forall|i: int| 0 <= i < ls.len() ==> !(#[trigger] ls[i]).contains('\n'),
        1 <= len <= ls.len(),
    ensures
        forall|i: int|
            0 <= i < len ==> parse_line_spec::<T>(spec_lines(spec_unlines(ls))[i], d)
                == parse_line_spec::<T>(#[trigger] ls[i], d),
{
    lemma_lines_unlines(ls);
}

/// Law: the header depends only on the leading lines. Two builds that agree
/// on their first `len` lines have the same header of length `len`, however
/// their body and footer lines differ.
pub proof fn lemma_header_ignores_tail<T: ParseField>(
    ls1: Seq<Seq<char>>,
    ls2: Seq<Seq<char>>,
    d: char,
    len: int,
)
    requires
        forall|i: int| 0 <= i < ls1.len() ==> !(#[trigger] ls1[i]).contains('\n'),
        forall|i: int| 0 <= i < ls2.len() ==> !(#[trigger] ls2[i]).contains('\n'),
        1 <= len <= ls1.len(),
        len <= ls2.len(),
        ls1.take(len) == ls2.take(len),
    ensures
        forall|i: int|
            0 <= i < len ==> parse_line_spec::<T>(#[trigger] spec_lines(spec_unlines(ls1))[i], d)
                == parse_line_spec::<T>(spec_lines(spec_unlines(ls2))[i], d),
{
    lemma_lines_unlines(ls1);
    lemma_lines_unlines(ls2);
    assert forall|i: int| 0 <= i < len implies parse_line_spec::<T>(
        #[trigger] spec_lines(spec_unlines(ls1))[i],
        d,
    ) == parse_line_spec::<T>(spec_lines(spec_unlines(ls2))[i], d) by {
        assert(ls1.take(len)[i] == ls1[i]);
        assert(ls2.take(len)[i] == ls2[i]);
    }
}

/// Law: overwriting one field and committing changes exactly that field.
/// After a fresh read of the committed text, the edited coordinate holds
/// the new value, every other field of that line is unchanged, and every
/// other line is identical character for character. The replacement must
/// not contain the delimiter or a newline, or it would change the grid's
/// shape.
pub proof fn lemma_change_value_round_trip(
    lns: Seq<Seq<char>>,
    d: char,
    line: int,
    row: int,
    v: Seq<char>,
)
    requires
        d != '\n',
        !v.contains(d),
        !v.contains('\n'),
        forall|i: int| 0 <= i < lns.len() ==> !(#[trigger] lns[i]).contains('\n'),
        1 <= line <= lns.len(),
        1 <= row <= spec_split(lns[line - 1], d).len(),
    ensures
        ({
            let parts = spec_split(lns[line - 1], d);
            let new_lns = lns.update(line - 1, spec_join(parts.update(row - 1, v), d));
            let text = spec_unlines(new_lns);
            &&& spec_lines(text) == new_lns
            &&& new_lns.len() == lns.len()
            &&& spec_split(new_lns[line - 1], d).len() == parts.len()
            &&& field_at(text, d, line, row) == v
            &&& forall|r2: int|
                1 <= r2 <= parts.len() && r2 != row ==> field_at(text, d, line, r2) == parts[r2
                    - 1]
            &&& forall|l2: int|
                1 <= l2 <= lns.len() && l2 != line ==> (#[trigger] new_lns[l2 - 1]) == lns[l2 - 1]
        }),
{
    let parts = spec_split(lns[line - 1], d);
    lemma_split_len(lns[line - 1], d);
    lemma_split_no_delim(lns[line - 1], d);
    lemma_split_absent(lns[line - 1], d, '\n');
    let parts2 = parts.update(row - 1, v);
    assert forall|i: int| 0 <= i < parts2.len() implies !(#[trigger] parts2[i]).contains(d) by {
        if i == row - 1 {
            assert(parts2[i] == v);
        } else {
            assert(parts2[i] == parts[i]);
        }
    }
    assert forall|i: int| 0 <= i < parts2.len() implies !(#[trigger] parts2[i]).contains('\n') by {
        if i == row - 1 {
            assert(parts2[i] == v);
        } else {
            assert(parts2[i] == parts[i]);
        }
    }
    lemma_split_join(parts2, d);
    let newline = spec_join(parts2, d);
    lemma_join_absent(parts2, d, '\n');
    let new_lns = lns.update(line - 1, newline);
    assert forall|i: int| 0 <= i < new_lns.len() implies !(#[trigger] new_lns[i]).contains(
        '\n',
    ) by {
        if i == line - 1 {
            assert(new_lns[i] == newline);
        } else {
            assert(new_lns[i] == lns[i]);
        }
    }
    lemma_lines_unlines(new_lns);
    assert(new_lns[line - 1] == newline);
    assert(spec_split(new_lns[line - 1], d) == parts2);
    assert(field_at(spec_unlines(new_lns), d, line, row) == parts2[row - 1]);
    assert(parts2[row - 1] == v);
    assert forall|r2: int| 1 <= r2 <= parts.len() && r2 != row implies field_at(
        spec_unlines(new_lns),
        d,
        line,
        r2,
    ) == parts[r2 - 1] by {
        assert(parts2[r2 - 1] == parts[r2 - 1]);
    }
}

/// Law: overwriting a field with the value it already holds leaves the
/// session's lines, and hence the committed file, entirely unchanged.
pub proof fn lemma_change_value_same_is_identity(
    lns: Seq<Seq<char>>,
    d: char,
    line: int,
    row: int,
)
    requires
        1 <= line <= lns.len(),
        1 <= row <= spec_split(lns[line - 1], d).len(),
    ensures
        ({
            let parts = spec_split(lns[line - 1], d);
            lns.update(line - 1, spec_join(parts.update(row - 1, parts[row - 1]), d)) == lns
        }),
{
    let parts = spec_split(lns[line - 1], d);
    assert(parts.update(row - 1, parts[row - 1]) =~~= parts);
    lemma_join_split(lns[line - 1], d);
    assert(spec_join(parts, d) == lns[line - 1]);
    assert(lns.update(line - 1, spec_join(parts.update(row - 1, parts[row - 1]), d)) =~~= lns);
}

} // verus!
