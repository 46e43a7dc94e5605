//! The grid layer: splitting text into lines, lines into fields by a
//! delimiter character, joining fields back, and trimming whitespace.
//!
//! Every executable function here is specified against a small recursive
//! model over `Seq<char>`; the round-trip lemmas relating splitting and
//! joining live in [`crate::laws`].

use vstd::prelude::*;

verus! {

/// The view of a sequence of owned strings: one `Seq<char>` per string.
pub open spec fn views(v: Seq<String>) -> Seq<Seq<char>> {
    v.map_values(|s: String| s@)
}

/// Splitting on a delimiter, defined by folding over the characters from the
/// left: a delimiter closes the current (possibly empty) field and opens a
/// new one. The empty text splits into one empty field, matching
/// `str::split` on a single-character pattern.
pub open spec fn spec_split(s: Seq<char>, d: char) -> Seq<Seq<char>>
    decreases s.len(),
{
    if s.len() == 0 {
        seq![Seq::<char>::empty()]
    } else {
        let init = spec_split(s.drop_last(), d);
        if s.last() == d {
            init.push(Seq::<char>::empty())
        } else {
            init.update(init.len() - 1, init.last().push(s.last()))
        }
    }
}

/// Joining fields with a single delimiter character between them.
pub open spec fn spec_join(parts: Seq<Seq<char>>, d: char) -> Seq<char>
    decreases parts.len(),
{
    if parts.len() == 0 {
        Seq::<char>::empty()
    } else if parts.len() == 1 {
        parts[0]
    } else {
        spec_join(parts.drop_last(), d) + seq![d] + parts.last()
    }
}

/// The lines of a text: split on `'\n'`, except that a single trailing
/// newline produces no trailing empty line, the way standard line iteration
/// behaves. The empty text has no lines.
pub open spec fn spec_lines(text: Seq<char>) -> Seq<Seq<char>> {
    if text.len() == 0 {
        Seq::<Seq<char>>::empty()
    } else if text.last() == '\n' {
        spec_split(text.drop_last(), '\n')
    } else {
        spec_split(text, '\n')
    }
}

/// The file body produced from a sequence of lines: each line followed by a
/// newline, so the result of a commit always ends in `'\n'` when non-empty.
pub open spec fn spec_unlines(lines: Seq<Seq<char>>) -> Seq<char>
    decreases lines.len(),
{
    if lines.len() == 0 {
        Seq::<char>::empty()
    } else {
        spec_unlines(lines.drop_last()) + lines.last() + seq!['\n']
    }
}

/// The whitespace characters stripped by [`trim`]: the ASCII blanks that can
/// plausibly surround a field in a delimited text file.
pub open spec fn is_space(c: char) -> bool {
    c == ' ' || c == '\t' || c == '\r' || c == '\n'
}

/// What is left of `s` after removing every leading whitespace character.
pub open spec fn spec_trim_start(s: Seq<char>) -> Seq<char>
    decreases s.len(),
{
    if s.len() > 0 && is_space(s[0]) {
        spec_trim_start(s.drop_first())
    } else {
        s
    }
}

/// What is left of `s` after removing every trailing whitespace character.
pub open spec fn spec_trim_end(s: Seq<char>) -> Seq<char>
    decreases s.len(),
{
    if s.len() > 0 && is_space(s.last()) {
        spec_trim_end(s.drop_last())
    } else {
        s
    }
}

/// `s` without its leading and trailing whitespace.
pub open spec fn spec_trim(s: Seq<char>) -> Seq<char> {
    spec_trim_end(spec_trim_start(s))
}

/// Whether the 1-indexed coordinate `(line, row)` lies within the grid of
/// `text` under delimiter `d`: the line exists, and splitting it yields at
/// least `row` fields.
pub open spec fn coord_in_bounds(text: Seq<char>, d: char, line: int, row: int) -> bool {
    &&& 1 <= line <= spec_lines(text).len()
    &&& 1 <= row <= spec_split(spec_lines(text)[line - 1], d).len()
}

/// The raw field string at the 1-indexed coordinate `(line, row)` of the
/// grid of `text` under delimiter `d`.
pub open spec fn field_at(text: Seq<char>, d: char, line: int, row: int) -> Seq<char> {
    spec_split(spec_lines(text)[line - 1], d)[row - 1]
}

/// Relies on `String::push` of std: appends the single character `c` at the
/// end of the string.
#[verifier::external_body]
fn push_char(s: &mut String, c: char)
    ensures
        final(s)@ == old(s)@.push(c),
{
    s.push(c);
}

/// Whether `c` is one of the whitespace characters of [`is_space`].
pub fn is_space_char(c: char) -> (r: bool)
    ensures
        r == is_space(c),
{
    c == ' ' || c == '\t' || c == '\r' || c == '\n'
}

/// Splits `s` into its fields at every occurrence of the delimiter `d`.
pub fn split_fields(s: &str, d: char) -> (r: Vec<String>)
    ensures
        views(r@) == spec_split(s@, d),
{
    let n = s.unicode_len();
    let mut parts: Vec<String> = Vec::new();
    let mut cur: String = String::new();
    let mut i: usize = 0;
    while i < n
        invariant
            i <= n,
            n == s@.len(),
            views(parts@).push(cur@) =~= spec_split(s@.take(i as int), d),
        decreases n - i,
    {
        let c = s.get_char(i);
        proof {
            assert(s@.take(i + 1).drop_last() =~= s@.take(i as int));
            assert(s@.take(i + 1).last() == s@[i as int]);
        }
        if c == d {
            parts.push(cur);
            cur = String::new();
            proof {
                assert(views(parts@).push(cur@) =~= spec_split(s@.take(i + 1), d));
            }
        } else {
            push_char(&mut cur, c);
            proof {
                assert(views(parts@).push(cur@) =~= spec_split(s@.take(i + 1), d));
            }
        }
        i = i + 1;
    }
    proof {
        assert(s@.take(n as int) =~= s@);
    }
    parts.push(cur);
    proof {
        assert(views(parts@) =~~= spec_split(s@, d));
    }
    parts
}

/// Joins the given fields with the delimiter `d` between each pair.
pub fn join_fields(parts: &Vec<String>, d: char) -> (r: String)
    ensures
        r@ == spec_join(views(parts@), d),
{
    let mut r = String::new();
    let mut i: usize = 0;
    proof {
        assert(views(parts@).take(0) =~= Seq::<Seq<char>>::empty());
    }
    while i < parts.len()
        invariant
            i <= parts@.len(),
            r@ == spec_join(views(parts@).take(i as int), d),
        decreases parts@.len() - i,
    {
        if i > 0 {
            push_char(&mut r, d);
        }
        r.append(parts[i].as_str());
        proof {
            let vs = views(parts@);
            assert(vs.take(i + 1).drop_last() =~= vs.take(i as int));
            assert(vs.take(i + 1).last() == vs[i as int]);
            if i == 0 {
                assert(r@ =~= spec_join(vs.take(1), d));
            } else {
                assert(r@ =~= spec_join(vs.take(i as int), d) + seq![d] + vs[i as int]);
            }
        }
        i = i + 1;
    }
    proof {
        assert(views(parts@).take(parts@.len() as int) =~= views(parts@));
    }
    r
}

/// Splits a text into its lines, the way standard line iteration does: a
/// single trailing newline yields no trailing empty line.
pub fn split_lines(text: &str) -> (r: Vec<String>)
    ensures
        views(r@) == spec_lines(text@),
{
    let n = text.unicode_len();
    if n == 0 {
        let r: Vec<String> = Vec::new();
        proof {
            assert(views(r@) =~~= spec_lines(text@));
        }
        return r;
    }
    let last = text.get_char(n - 1);
    if last == '\n' {
        let body = text.substring_char(0, n - 1);
        proof {
            assert(body@ =~= text@.drop_last());
        }
        split_fields(body, '\n')
    } else {
        split_fields(text, '\n')
    }
}

/// Renders a sequence of lines as a file body: each line followed by a
/// newline character.
pub fn join_lines(lines: &Vec<String>) -> (r: String)
    ensures
        r@ == spec_unlines(views(lines@)),
{
    let mut r = String::new();
    let mut i: usize = 0;
    proof {
        assert(views(lines@).take(0) =~= Seq::<Seq<char>>::empty());
    }
    while i < lines.len()
        invariant
            i <= lines@.len(),
            r@ == spec_unlines(views(lines@).take(i as int)),
        decreases lines@.len() - i,
    {
        r.append(lines[i].as_str());
        push_char(&mut r, '\n');
        proof {
            let vs = views(lines@);
            assert(vs.take(i + 1).drop_last() =~= vs.take(i as int));
            assert(vs.take(i + 1).last() == vs[i as int]);
            assert(r@ =~= spec_unlines(vs.take(i as int)) + vs[i as int] + seq!['\n']);
        }
        i = i + 1;
    }
    proof {
        assert(views(lines@).take(lines@.len() as int) =~= views(lines@));
    }
    r
}

/// Removes the leading and trailing whitespace of [`is_space`] from `s`.
pub fn trim(s: &str) -> (r: &str)
    ensures
        r@ == spec_trim(s@),
{
    let n = s.unicode_len();
    let mut a: usize = 0;
    proof {
        assert(s@.skip(0) =~= s@);
    }
    while a < n && is_space_char(s.get_char(a))
        invariant
            a <= n,
            n == s@.len(),
            spec_trim_start(s@) == spec_trim_start(s@.skip(a as int)),
        decreases n - a,
    {
        proof {
            assert(s@.skip(a as int)[0] == s@[a as int]);
            assert(s@.skip(a as int).drop_first() =~= s@.skip(a + 1));
        }
        a = a + 1;
    }
    proof {
        if a < n {
            assert(s@.skip(a as int)[0] == s@[a as int]);
            assert(spec_trim_start(s@.skip(a as int)) == s@.skip(a as int));
        } else {
            assert(s@.skip(a as int) =~= Seq::<char>::empty());
        }
        assert(s@.skip(a as int) =~= s@.subrange(a as int, n as int));
        assert(spec_trim_start(s@) == s@.skip(a as int));
    }
    let mut b: usize = n;
    while b > a && is_space_char(s.get_char(b - 1))
        invariant
            a <= b <= n,
            n == s@.len(),
            spec_trim_start(s@) == s@.skip(a as int),
            spec_trim_end(s@.skip(a as int)) == spec_trim_end(s@.subrange(a as int, b as int)),
        decreases b,
    {
        proof {
            assert(s@.subrange(a as int, b as int).last() == s@[b - 1]);
            assert(s@.subrange(a as int, b as int).drop_last() =~= s@.subrange(a as int, b - 1));
        }
        b = b - 1;
    }
    proof {
        if b > a {
            assert(s@.subrange(a as int, b as int).last() == s@[b - 1]);
            assert(spec_trim_end(s@.subrange(a as int, b as int)) == s@.subrange(a as int, b as int));
        } else {
            assert(s@.subrange(a as int, b as int) =~= Seq::<char>::empty());
        }
    }
    s.substring_char(a, b)
}

/// Splitting always yields at least one field.
pub proof fn lemma_split_len(s: Seq<char>, d: char)
    ensures
        spec_split(s, d).len() >= 1,
    decreases s.len(),
{
    if s.len() > 0 {
        lemma_split_len(s.drop_last(), d);
    }
}

/// A character absent from the text is absent from every field of its split.
pub proof fn lemma_split_absent(s: Seq<char>, d: char, x: char)
    requires
        !s.contains(x),
    ensures
        forall|i: int|
            0 <= i < spec_split(s, d).len() ==> !(#[trigger] spec_split(s, d)[i]).contains(x),
    decreases s.len(),
{
    if s.len() == 0 {
        assert(!Seq::<char>::empty().contains(x));
    } else {
        assert forall|j: int| 0 <= j < s.drop_last().len() implies s.drop_last()[j] != x by {
            assert(s.drop_last()[j] == s[j]);
            assert(!s.contains(x));
        }
        assert(!s.drop_last().contains(x));
        lemma_split_absent(s.drop_last(), d, x);
        lemma_split_len(s.drop_last(), d);
        let init = spec_split(s.drop_last(), d);
        let c = s.last();
        assert(s[s.len() - 1] == c);
        assert(c != x);
        if c == d {
            assert forall|i: int| 0 <= i < spec_split(s, d).len() implies !(
            #[trigger] spec_split(s, d)[i]).contains(x) by {
                if i < init.len() {
                    assert(spec_split(s, d)[i] == init[i]);
                } else {
                    assert(spec_split(s, d)[i] == Seq::<char>::empty());
                    assert(!Seq::<char>::empty().contains(x));
                }
            }
        } else {
            let grown = init.last().push(c);
            assert forall|j: int| 0 <= j < grown.len() implies grown[j] != x by {
                if j < grown.len() - 1 {
                    assert(grown[j] == init.last()[j]);
                    assert(init[init.len() - 1] == init.last());
                    assert(!init.last().contains(x));
                } else {
                    assert(grown[j] == c);
                }
            }
            assert(!grown.contains(x));
            assert forall|i: int| 0 <= i < spec_split(s, d).len() implies !(
            #[trigger] spec_split(s, d)[i]).contains(x) by {
                if i < init.len() - 1 {
                    assert(spec_split(s, d)[i] == init[i]);
                } else {
                    assert(spec_split(s, d)[i] == grown);
                }
            }
        }
    }
}

/// No field produced by a split contains the delimiter it was split on.
pub proof fn lemma_split_no_delim(s: Seq<char>, d: char)
    ensures
        forall|i: int|
            0 <= i < spec_split(s, d).len() ==> !(#[trigger] spec_split(s, d)[i]).contains(d),
    decreases s.len(),
{
    if s.len() == 0 {
        assert(!Seq::<char>::empty().contains(d));
    } else {
        lemma_split_no_delim(s.drop_last(), d);
        lemma_split_len(s.drop_last(), d);
        let init = spec_split(s.drop_last(), d);
        let c = s.last();
        if c == d {
            assert forall|i: int| 0 <= i < spec_split(s, d).len() implies !(
            #[trigger] spec_split(s, d)[i]).contains(d) by {
                if i < init.len() {
                    assert(spec_split(s, d)[i] == init[i]);
                } else {
                    assert(spec_split(s, d)[i] == Seq::<char>::empty());
                    assert(!Seq::<char>::empty().contains(d));
                }
            }
        } else {
            let grown = init.last().push(c);
            assert forall|j: int| 0 <= j < grown.len() implies grown[j] != d by {
                if j < grown.len() - 1 {
                    assert(grown[j] == init.last()[j]);
                    assert(init[init.len() - 1] == init.last());
                    assert(!init.last().contains(d));
                } else {
                    assert(grown[j] == c);
                }
            }
            assert(!grown.contains(d));
            assert forall|i: int| 0 <= i < spec_split(s, d).len() implies !(
            #[trigger] spec_split(s, d)[i]).contains(d) by {
                if i < init.len() - 1 {
                    assert(spec_split(s, d)[i] == init[i]);
                } else {
                    assert(spec_split(s, d)[i] == grown);
                }
            }
        }
    }
}

/// Joining the fields of a split with the same delimiter restores the text.
pub proof fn lemma_join_split(s: Seq<char>, d: char)
    ensures
        spec_join(spec_split(s, d), d) == s,
    decreases s.len(),
{
    if s.len() > 0 {
        lemma_join_split(s.drop_last(), d);
        lemma_split_len(s.drop_last(), d);
        let init = spec_split(s.drop_last(), d);
        let c = s.last();
        if c == d {
            let parts = init.push(Seq::<char>::empty());
            assert(parts.drop_last() =~~= init);
            assert(spec_join(parts, d) == spec_join(init, d) + seq![d] + Seq::<char>::empty());
            assert(spec_join(parts, d) =~= s);
        } else {
            let parts = init.update(init.len() - 1, init.last().push(c));
            if init.len() == 1 {
                assert(parts.len() == 1);
                assert(spec_join(parts, d) == parts[0]);
                assert(parts[0] == init[0].push(c));
                assert(spec_join(init, d) == init[0]);
                assert(spec_join(parts, d) =~= s);
            } else {
                assert(parts.drop_last() =~~= init.drop_last());
                assert(parts.last() == init.last().push(c));
                assert(spec_join(parts, d) == spec_join(init.drop_last(), d) + seq![d]
                    + init.last().push(c));
                assert(spec_join(init, d) == spec_join(init.drop_last(), d) + seq![d]
                    + init.last());
                assert(spec_join(init.drop_last(), d) + seq![d] + init.last().push(c) =~= (
                spec_join(init.drop_last(), d) + seq![d] + init.last()).push(c));
                assert(s.drop_last().push(c) =~= s);
            }
        }
    }
}

/// Splitting a text that does not contain the delimiter yields the whole
/// text as the single field.
pub proof fn lemma_split_whole(s: Seq<char>, d: char)
    requires
        !s.contains(d),
    ensures
        spec_split(s, d) == seq![s],
    decreases s.len(),
{
    if s.len() > 0 {
        assert forall|j: int| 0 <= j < s.drop_last().len() implies s.drop_last()[j] != d by {
            assert(s.drop_last()[j] == s[j]);
        }
        assert(!s.drop_last().contains(d));
        lemma_split_whole(s.drop_last(), d);
        assert(s[s.len() - 1] == s.last());
        assert(s.last() != d);
        let init = seq![s.drop_last()];
        assert(init.last() == s.drop_last());
        assert(spec_split(s, d) == init.update(0, s.drop_last().push(s.last())));
        assert(s.drop_last().push(s.last()) =~= s);
        assert(spec_split(s, d) =~~= seq![s]);
    } else {
        assert(s =~= Seq::<char>::empty());
        assert(spec_split(s, d) =~~= seq![s]);
    }
}

/// Splitting distributes over an explicit delimiter: a text assembled as
/// `s1 + d + s2` splits into the fields of `s1` followed by those of `s2`.
pub proof fn lemma_split_concat(s1: Seq<char>, s2: Seq<char>, d: char)
    ensures
        spec_split(s1 + seq![d] + s2, d) == spec_split(s1, d) + spec_split(s2, d),
    decreases s2.len(),
{
    let t = s1 + seq![d] + s2;
    if s2.len() == 0 {
        assert(t =~= s1.push(d));
        assert(t.drop_last() =~= s1);
        assert(t.last() == d);
        assert(spec_split(t, d) == spec_split(s1, d).push(Seq::<char>::empty()));
        assert(spec_split(s2, d) == seq![Seq::<char>::empty()]);
        assert(spec_split(t, d) =~~= spec_split(s1, d) + spec_split(s2, d));
    } else {
        lemma_split_concat(s1, s2.drop_last(), d);
        lemma_split_len(s2.drop_last(), d);
        let c = s2.last();
        assert(t.len() > 0);
        assert(t.drop_last() =~= s1 + seq![d] + s2.drop_last());
        assert(t.last() == c);
        let init_t = spec_split(t.drop_last(), d);
        let init_2 = spec_split(s2.drop_last(), d);
        assert(init_t == spec_split(s1, d) + init_2);
        if c == d {
            assert(spec_split(t, d) == init_t.push(Seq::<char>::empty()));
            assert(spec_split(s2, d) == init_2.push(Seq::<char>::empty()));
            assert(spec_split(t, d) =~~= spec_split(s1, d) + spec_split(s2, d));
        } else {
            assert(init_t.len() == spec_split(s1, d).len() + init_2.len());
            assert(init_t.last() == init_2.last());
            assert(spec_split(t, d) == init_t.update(
                init_t.len() - 1,
                init_t.last().push(c),
            ));
            assert(spec_split(s2, d) == init_2.update(init_2.len() - 1, init_2.last().push(c)));
            assert(spec_split(t, d) =~~= spec_split(s1, d) + spec_split(s2, d));
        }
    }
}

/// Splitting the join of delimiter-free fields restores exactly those fields.
pub proof fn lemma_split_join(parts: Seq<Seq<char>>, d: char)
    requires
        parts.len() >= 1,
        forall|i: int| 0 <= i < parts.len() ==> !(#[trigger] parts[i]).contains(d),
    ensures
        spec_split(spec_join(parts, d), d) == parts,
    decreases parts.len(),
{
    if parts.len() == 1 {
        assert(spec_join(parts, d) == parts[0]);
        lemma_split_whole(parts[0], d);
        assert(spec_split(spec_join(parts, d), d) =~~= parts);
    } else {
        let front = parts.drop_last();
        assert forall|i: int| 0 <= i < front.len() implies !(#[trigger] front[i]).contains(d) by {
            assert(front[i] == parts[i]);
        }
        lemma_split_join(front, d);
        assert(parts[parts.len() - 1] == parts.last());
        lemma_split_whole(parts.last(), d);
        lemma_split_concat(spec_join(front, d), parts.last(), d);
        assert(spec_split(spec_join(parts, d), d) == front + seq![parts.last()]);
        assert(spec_split(spec_join(parts, d), d) =~~= parts);
    }
}

/// A character distinct from the delimiter and absent from every field is
/// absent from their join.
pub proof fn lemma_join_absent(parts: Seq<Seq<char>>, d: char, x: char)
    requires
        d != x,
        forall|i: int| 0 <= i < parts.len() ==> !(#[trigger] parts[i]).contains(x),
    ensures
        !spec_join(parts, d).contains(x),
    decreases parts.len(),
{
    if parts.len() == 0 {
        assert(!Seq::<char>::empty().contains(x));
    } else if parts.len() == 1 {
        assert(spec_join(parts, d) == parts[0]);
    } else {
        let front = parts.drop_last();
        assert forall|i: int| 0 <= i < front.len() implies !(#[trigger] front[i]).contains(x) by {
            assert(front[i] == parts[i]);
        }
        lemma_join_absent(front, d, x);
        let jf = spec_join(front, d);
        let last = parts.last();
        assert(parts[parts.len() - 1] == last);
        assert(!last.contains(x));
        assert(spec_join(parts, d) == jf + seq![d] + last);
        assert forall|j: int| 0 <= j < spec_join(parts, d).len() implies spec_join(parts, d)[j]
            != x by {
            if j < jf.len() {
                assert(spec_join(parts, d)[j] == jf[j]);
                assert(!jf.contains(x));
            } else if j == jf.len() {
                assert(spec_join(parts, d)[j] == d);
            } else {
                assert(spec_join(parts, d)[j] == last[j - jf.len() - 1]);
            }
        }
    }
}

/// A rendered file body is empty only for the empty line sequence; when
/// non-empty it always ends with a newline.
pub proof fn lemma_unlines_last(lines: Seq<Seq<char>>)
    requires
        lines.len() > 0,
    ensures
        spec_unlines(lines).len() > 0,
        spec_unlines(lines).last() == '\n',
{
}

/// Reading back a rendered file body yields exactly the lines that were
/// rendered, provided no line contains a newline of its own.
pub proof fn lemma_lines_unlines(ls: Seq<Seq<char>>)
    requires
        forall|i: int| 0 <= i < ls.len() ==> !(#[trigger] ls[i]).contains('\n'),
    ensures
        spec_lines(spec_unlines(ls)) == ls,
    decreases ls.len(),
{
    if ls.len() == 0 {
        assert(spec_lines(spec_unlines(ls)) =~~= ls);
    } else if ls.len() == 1 {
        let u = spec_unlines(ls);
        assert(ls.drop_last().len() == 0);
        assert(spec_unlines(ls.drop_last()) == Seq::<char>::empty());
        assert(ls.last() == ls[0]);
        assert(u =~= ls[0].push('\n'));
        assert(u.last() == '\n');
        assert(u.drop_last() =~= ls[0]);
        assert(ls[0] == ls.last());
        lemma_split_whole(ls[0], '\n');
        assert(spec_lines(u) =~~= ls);
    } else {
        let dl = ls.drop_last();
        assert forall|i: int| 0 <= i < dl.len() implies !(#[trigger] dl[i]).contains('\n') by {
            assert(dl[i] == ls[i]);
        }
        lemma_lines_unlines(dl);
        lemma_unlines_last(dl);
        let w = spec_unlines(dl).drop_last();
        assert(spec_unlines(dl) =~= w + seq!['\n']);
        let u = spec_unlines(ls);
        assert(u.len() > 0);
        assert(u.last() == '\n');
        assert(u.drop_last() =~= w + seq!['\n'] + ls.last());
        lemma_split_concat(w, ls.last(), '\n');
        assert(ls[ls.len() - 1] == ls.last());
        lemma_split_whole(ls.last(), '\n');
        assert(spec_lines(spec_unlines(dl)) == spec_split(w, '\n'));
        assert(spec_lines(u) == spec_split(w, '\n') + seq![ls.last()]);
        assert(spec_lines(u) =~~= ls);
    }
}

} // verus!

