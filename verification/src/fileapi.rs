//! Positional read, edit, and build sessions over a file grid.
//!
//! A [`FileAPI`] names a path and a delimiter and spawns the three session
//! types. Sessions work on an in-memory snapshot supplied by the caller (who
//! performs the disk I/O): a [`Reader`] queues coordinate reads against a
//! loaded text, a [`Changer`] overwrites single fields of the loaded lines,
//! and a [`Builder`] accumulates the lines of a fresh file. The terminal
//! `render` step of a `Changer` or `Builder` produces the full replacement
//! file body, one trailing newline per line.

use vstd::prelude::*;

use crate::codec::parse_all;
use crate::codec::parse_fields;
use crate::codec::ParseField;
use crate::text::coord_in_bounds;
use crate::text::field_at;
use crate::text::join_fields;
use crate::text::join_lines;
use crate::text::spec_lines;
use crate::text::spec_join;
use crate::text::spec_split;
use crate::text::spec_unlines;
use crate::text::split_fields;
use crate::text::split_lines;
use crate::text::views;

verus! {

/// The ways a grid operation can fail. Every failure is reported at the call
/// that provokes it; no operation returns a partial result.
#[derive(Clone, Copy, Debug, PartialEq, Eq, Structural)]
pub enum GridError {
    /// A line or field coordinate lies outside the loaded grid.
    IndexOutOfRange,
    /// A field string does not denote a value of the requested type.
    ParseError,
    /// An argument violates the operation's contract, such as a header
    /// length below one.
    InvalidArgument,
}

/// Trims and parses every field of one line split by `d`: `Some` exactly
/// when every field parses.
pub open spec fn parse_line_spec<T: ParseField>(line: Seq<char>, d: char) -> Option<Seq<T>> {
    parse_all::<T>(spec_split(line, d))
}

/// Whether the comma-separated cell at 1-indexed `row` of `line` exists and
/// parses (without trimming) to a `T`.
pub open spec fn csv_cell_ok<T: ParseField>(line: Seq<char>, row: int) -> bool {
    &&& 1 <= row <= spec_split(line, ',').len()
    &&& T::parse_spec(spec_split(line, ',')[row - 1]) is Some
}

/// The error a failing comma-separated cell access reports: an out-of-range
/// `row` beats a parse failure.
pub open spec fn csv_cell_err(line: Seq<char>, row: int) -> GridError {
    if !(1 <= row <= spec_split(line, ',').len()) {
        GridError::IndexOutOfRange
    } else {
        GridError::ParseError
    }
}

/// Whether `e` is the error a comma-separated column read reports on
/// `lns`: some line after the header has a failing cell at `row`, every
/// line before it is fine, and `e` names that first failure's kind.
pub open spec fn csv_err_spec<T: ParseField>(lns: Seq<Seq<char>>, row: int, e: GridError) -> bool {
    exists|i: int|
        #![trigger lns[i]]
        {
            &&& 1 <= i < lns.len()
            &&& !csv_cell_ok::<T>(lns[i], row)
            &&& e == csv_cell_err(lns[i], row)
            &&& forall|j: int| 1 <= j < i ==> csv_cell_ok::<T>(#[trigger] lns[j], row)
        }
}

/// A handle on a file: a path and the delimiter splitting each line into
/// fields. Constructing one performs no I/O; sessions work on text the
/// caller loads and store the handle for the caller to write back to.
pub struct FileAPI {
    /// The path of the underlying file.
    pub path: String,
    /// The delimiter between fields of a line; `' '` by default.
    pub split: char,
}

impl FileAPI {
    /// Makes a handle on `path` with the default delimiter `' '`.
    pub fn from(path: &str) -> (r: FileAPI)
        ensures
            r.path@ == path@,
            r.split == ' ',
    {
        FileAPI { path: String::from_str(path), split: ' ' }
    }

    /// Replaces the delimiter, returning the updated handle. Handles have
    /// value semantics: copies taken earlier keep their delimiter.
    pub fn split(self, split: char) -> (r: FileAPI)
        ensures
            r.path@ == self.path@,
            r.split == split,
    {
        FileAPI { path: self.path, split }
    }

    /// Opens a read session on `text`, the loaded contents of the file.
    pub fn reader(&self, text: String) -> (r: Reader)
        ensures
            r.lines@ == text@,
            r.file.path@ == self.path@,
            r.file.split == self.split,
            r.values@.len() == 0,
    {
        Reader::from(self, text)
    }

    /// Opens an edit session on `text`, the loaded contents of the file,
    /// split into its lines.
    pub fn changer(&self, text: String) -> (r: Changer)
        ensures
            views(r.lines@) == spec_lines(text@),
            r.file.path@ == self.path@,
            r.file.split == self.split,
    {
        Changer::from(self, text)
    }

    /// Opens a build session for an entirely new file body.
    pub fn builder(&self) -> (r: Builder)
        ensures
            r.lines@.len() == 0,
            r.file.path@ == self.path@,
            r.file.split == self.split,
    {
        Builder::from(self)
    }
}

impl Clone for FileAPI {
    /// An independent copy of the handle.
    fn clone(&self) -> (r: Self)
        ensures
            r.path@ == self.path@,
            r.split == self.split,
    {
        FileAPI { path: self.path.clone(), split: self.split }
    }
}

/// A read session: an immutable snapshot of the file text and an ordered
/// queue of field strings selected by [`Reader::read_value`], resolved all
/// at once by [`Reader::execute`].
pub struct Reader {
    /// The full loaded text of the file.
    pub lines: String,
    /// The handle this session was spawned from.
    pub file: FileAPI,
    /// The raw field strings queued so far, in queue order.
    pub values: Vec<String>,
}

impl Reader {
    fn from(file: &FileAPI, text: String) -> (r: Reader)
        ensures
            r.lines@ == text@,
            r.file.path@ == file.path@,
            r.file.split == file.split,
            r.values@.len() == 0,
    {
        Reader { lines: text, file: file.clone(), values: Vec::new() }
    }

    /// The full loaded text, unmodified.
    pub fn read_to_string(&self) -> (r: String)
        ensures
            r@ == self.lines@,
    {
        self.lines.clone()
    }

    /// Queues the field at the 1-indexed coordinate `(line, row)`: the
    /// requested line is split by the delimiter and the chosen field's raw
    /// string is appended to the queue. An out-of-range coordinate leaves
    /// the queue untouched.
    pub fn read_value(&mut self, line: usize, row: usize) -> (r: Result<(), GridError>)
        ensures
            final(self).lines@ == old(self).lines@,
            final(self).file.path@ == old(self).file.path@,
            final(self).file.split == old(self).file.split,
            match r {
                Ok(()) => coord_in_bounds(
                    old(self).lines@,
                    old(self).file.split,
                    line as int,
                    row as int,
                ) && views(final(self).values@) == views(old(self).values@).push(
                    field_at(old(self).lines@, old(self).file.split, line as int, row as int),
                ),
                Err(e) => e == GridError::IndexOutOfRange && !coord_in_bounds(
                    old(self).lines@,
                    old(self).file.split,
                    line as int,
                    row as int,
                ) && views(final(self).values@) == views(old(self).values@),
            },
    {
        let lns = split_lines(self.lines.as_str());
        if line < 1 || line > lns.len() {
            return Err(GridError::IndexOutOfRange);
        }
        let fields = split_fields(lns[line - 1].as_str(), self.file.split);
        if row < 1 || row > fields.len() {
            return Err(GridError::IndexOutOfRange);
        }
        let v = fields[row - 1].clone();
        self.values.push(v);
        proof {
            assert(views(self.values@) =~~= views(old(self).values@).push(
                field_at(old(self).lines@, old(self).file.split, line as int, row as int),
            ));
        }
        Ok(())
    }

    /// Resolves the queue: trims and parses every queued field string to
    /// `T`, in queue order. Fails on the first field that does not parse;
    /// no partial result is returned.
    pub fn execute<T: ParseField>(&self) -> (r: Result<Vec<T>, GridError>)
        ensures
            match r {
                Ok(vs) => parse_all::<T>(views(self.values@)) == Some(vs@),
                Err(e) => e == GridError::ParseError && parse_all::<T>(views(self.values@))
                    is None,
            },
    {
        match parse_fields::<T>(&self.values) {
            Some(vs) => Ok(vs),
            None => Err(GridError::ParseError),
        }
    }

    /// Parses the first `len` lines, each split by the delimiter and parsed
    /// field-wise. `len` must be at least 1 and at most the line count.
    pub fn read_header<T: ParseField>(&self, len: usize) -> (r: Result<Vec<Vec<T>>, GridError>)
        ensures
            ({
                let lns = spec_lines(self.lines@);
                let d = self.file.split;
                match r {
                    Ok(rows) => {
                        &&& 1 <= len <= lns.len()
                        &&& rows@.len() == len as int
                        &&& forall|i: int|
                            0 <= i < len ==> parse_line_spec::<T>(lns[i], d) == Some(
                                (#[trigger] rows@[i])@,
                            )
                    },
                    Err(e) => match e {
                        GridError::InvalidArgument => len < 1,
                        GridError::IndexOutOfRange => len >= 1 && len > lns.len(),
                        GridError::ParseError => 1 <= len <= lns.len() && exists|i: int|
                            0 <= i < len && (#[trigger] parse_line_spec::<T>(lns[i], d)) is None,
                    },
                }
            }),
    {
        if len < 1 {
            return Err(GridError::InvalidArgument);
        }
        let lns = split_lines(self.lines.as_str());
        if len > lns.len() {
            return Err(GridError::IndexOutOfRange);
        }
        let mut rows: Vec<Vec<T>> = Vec::new();
        let mut i: usize = 0;
        while i < len
            invariant
                i <= len,
                len <= lns@.len(),
                views(lns@) == spec_lines(self.lines@),
                rows@.len() == i,
                forall|j: int|
                    0 <= j < i ==> parse_line_spec::<T>(spec_lines(self.lines@)[j], self.file.split)
                        == Some((#[trigger] rows@[j])@),
            decreases len - i,
        {
            match Self::read_line_parse::<T>(lns[i].as_str(), self.file.split) {
                Some(vs) => {
                    rows.push(vs);
                },
                None => {
                    proof {
                        assert(views(lns@)[i as int] == spec_lines(self.lines@)[i as int]);
                        assert(parse_line_spec::<T>(
                            spec_lines(self.lines@)[i as int],
                            self.file.split,
                        ) is None);
                    }
                    return Err(GridError::ParseError);
                },
            }
            i = i + 1;
        }
        Ok(rows)
    }

    /// Parses the last line, split by the delimiter and parsed field-wise.
    /// The file must have at least one line.
    pub fn read_footer<T: ParseField>(&self) -> (r: Result<Vec<T>, GridError>)
        ensures
            ({
                let lns = spec_lines(self.lines@);
                let d = self.file.split;
                match r {
                    Ok(vs) => lns.len() > 0 && parse_line_spec::<T>(lns.last(), d) == Some(vs@),
                    Err(e) => match e {
                        GridError::IndexOutOfRange => lns.len() == 0,
                        GridError::ParseError => lns.len() > 0 && parse_line_spec::<T>(
                            lns.last(),
                            d,
                        ) is None,
                        GridError::InvalidArgument => false,
                    },
                }
            }),
    {
        let lns = split_lines(self.lines.as_str());
        if lns.len() == 0 {
            return Err(GridError::IndexOutOfRange);
        }
        match Self::read_line_parse::<T>(lns[lns.len() - 1].as_str(), self.file.split) {
            Some(vs) => Ok(vs),
            None => Err(GridError::ParseError),
        }
    }

    /// Parses every line between the first `header` and the last `footer`
    /// lines, in file order, each split by the delimiter and parsed
    /// field-wise. When `header + footer` covers the whole file the body is
    /// empty; a `footer` larger than the line count is rejected rather than
    /// left undefined.
    pub fn read_body<T: ParseField>(&self, header: usize, footer: usize) -> (r: Result<
        Vec<Vec<T>>,
        GridError,
    >)
        ensures
            ({
                let lns = spec_lines(self.lines@);
                let d = self.file.split;
                let lo = header as int;
                let hi = lns.len() - footer;
                match r {
                    Ok(rows) => {
                        &&& footer <= lns.len()
                        &&& rows@.len() == (if lo < hi {
                            hi - lo
                        } else {
                            0
                        })
                        &&& forall|i: int|
                            0 <= i < rows@.len() ==> parse_line_spec::<T>(lns[lo + i], d) == Some(
                                (#[trigger] rows@[i])@,
                            )
                    },
                    Err(e) => match e {
                        GridError::IndexOutOfRange => footer > lns.len(),
                        GridError::ParseError => footer <= lns.len() && exists|i: int|
                            lo <= i < hi && (#[trigger] parse_line_spec::<T>(lns[i], d)) is None,
                        GridError::InvalidArgument => false,
                    },
                }
            }),
    {
        let lns = split_lines(self.lines.as_str());
        if footer > lns.len() {
            return Err(GridError::IndexOutOfRange);
        }
        let hi = lns.len() - footer;
        let mut rows: Vec<Vec<T>> = Vec::new();
        let mut i: usize = header;
        if i >= hi {
            return Ok(rows);
        }
        while i < hi
            invariant
                header <= i <= hi,
                hi == lns@.len() - footer,
                footer <= lns@.len(),
                views(lns@) == spec_lines(self.lines@),
                rows@.len() == i - header,
                forall|j: int|
                    0 <= j < rows@.len() ==> parse_line_spec::<T>(
                        spec_lines(self.lines@)[header + j],
                        self.file.split,
                    ) == Some((#[trigger] rows@[j])@),
            decreases hi - i,
        {
            match Self::read_line_parse::<T>(lns[i].as_str(), self.file.split) {
                Some(vs) => {
                    rows.push(vs);
                },
                None => {
                    proof {
                        assert(views(lns@)[i as int] == spec_lines(self.lines@)[i as int]);
                        assert(parse_line_spec::<T>(
                            spec_lines(self.lines@)[i as int],
                            self.file.split,
                        ) is None);
                    }
                    return Err(GridError::ParseError);
                },
            }
            i = i + 1;
        }
        Ok(rows)
    }

    /// Splits one line by `split` and parses every field, each trimmed
    /// first.
    fn read_line_parse<T: ParseField>(line: &str, split: char) -> (r: Option<Vec<T>>)
        ensures
            match r {
                Some(vs) => parse_line_spec::<T>(line@, split) == Some(vs@),
                None => parse_line_spec::<T>(line@, split) is None,
            },
    {
        let fields = split_fields(line, split);
        parse_fields::<T>(&fields)
    }

    /// The number of lines in the loaded snapshot.
    pub fn count_lines(&self) -> (r: usize)
        ensures
            r == spec_lines(self.lines@).len(),
    {
        let lns = split_lines(self.lines.as_str());
        lns.len()
    }

    /// Reads the comma-separated cell at 1-indexed `row` of every line but
    /// the first, which is taken for a header. The comma is fixed: the
    /// configured delimiter does not apply here, and the cells are parsed
    /// without trimming. Fails at the first line whose cell is missing or
    /// does not parse.
    pub fn read_csv<T: ParseField>(&self, row: usize) -> (r: Result<Vec<T>, GridError>)
        ensures
            ({
                let lns = spec_lines(self.lines@);
                match r {
                    Ok(vs) => {
                        &&& (lns.len() == 0 ==> vs@.len() == 0)
                        &&& (lns.len() > 0 ==> vs@.len() == lns.len() - 1)
                        &&& forall|i: int|
                            1 <= i < lns.len() ==> (#[trigger] csv_cell_ok::<T>(lns[i], row as int))
                                && T::parse_spec(spec_split(lns[i], ',')[row - 1]) == Some(
                                vs@[i - 1],
                            )
                    },
                    Err(e) => csv_err_spec::<T>(lns, row as int, e),
                }
            }),
    {
        let lns = split_lines(self.lines.as_str());
        let mut out: Vec<T> = Vec::new();
        let mut i: usize = 1;
        if lns.len() == 0 {
            return Ok(out);
        }
        while i < lns.len()
            invariant
                1 <= i <= lns@.len(),
                views(lns@) == spec_lines(self.lines@),
                out@.len() == i - 1,
                forall|j: int|
                    1 <= j < i ==> csv_cell_ok::<T>(#[trigger] spec_lines(self.lines@)[j], row as int)
                        && T::parse_spec(spec_split(spec_lines(self.lines@)[j], ',')[row - 1])
                        == Some(out@[j - 1]),
            decreases lns@.len() - i,
        {
            let fields = split_fields(lns[i].as_str(), ',');
            if row < 1 || row > fields.len() {
                proof {
                    let glns = spec_lines(self.lines@);
                    assert(views(lns@)[i as int] == glns[i as int]);
                    assert(views(fields@) == spec_split(glns[i as int], ','));
                    assert(!csv_cell_ok::<T>(glns[i as int], row as int));
                    assert(csv_cell_err(glns[i as int], row as int) == GridError::IndexOutOfRange);
                    assert(csv_err_spec::<T>(glns, row as int, GridError::IndexOutOfRange));
                }
                return Err(GridError::IndexOutOfRange);
            }
            match T::parse_field(fields[row - 1].as_str()) {
                Some(x) => {
                    out.push(x);
                },
                None => {
                    proof {
                        let glns = spec_lines(self.lines@);
                        assert(views(lns@)[i as int] == glns[i as int]);
                        assert(views(fields@) == spec_split(glns[i as int], ','));
                        assert(views(fields@)[row - 1] == spec_split(glns[i as int], ',')[row - 1]);
                        assert(T::parse_spec(spec_split(glns[i as int], ',')[row - 1]) is None);
                        assert(!csv_cell_ok::<T>(glns[i as int], row as int));
                        assert(csv_cell_err(glns[i as int], row as int) == GridError::ParseError);
                        assert(csv_err_spec::<T>(glns, row as int, GridError::ParseError));
                    }
                    return Err(GridError::ParseError);
                },
            }
            i = i + 1;
        }
        Ok(out)
    }
}

/// An edit session: the loaded lines of the file, mutated field by field via
/// [`Changer::change_value`] and rendered back into a full replacement file
/// body by [`Changer::render`].
pub struct Changer {
    /// The current lines, each still joined by the delimiter.
    pub lines: Vec<String>,
    /// The handle this session was spawned from.
    pub file: FileAPI,
}

impl Changer {
    fn from(file: &FileAPI, text: String) -> (r: Changer)
        ensures
            views(r.lines@) == spec_lines(text@),
            r.file.path@ == file.path@,
            r.file.split == file.split,
    {
        Changer { lines: split_lines(text.as_str()), file: file.clone() }
    }

    /// Overwrites the field at the 1-indexed coordinate `(line, row)` with
    /// the literal string `value`: the target line is split by the
    /// delimiter, the chosen field replaced, and the line rejoined. An
    /// out-of-range coordinate mutates nothing.
    pub fn change_value(&mut self, line: usize, row: usize, value: &str) -> (r: Result<
        (),
        GridError,
    >)
        ensures
            final(self).file.path@ == old(self).file.path@,
            final(self).file.split == old(self).file.split,
            match r {
                Ok(()) => ({
                    let lns = views(old(self).lines@);
                    let d = old(self).file.split;
                    &&& 1 <= line <= lns.len()
                    &&& 1 <= row <= spec_split(lns[line - 1], d).len()
                    &&& views(final(self).lines@) == lns.update(
                        line - 1,
                        spec_join(spec_split(lns[line - 1], d).update(row - 1, value@), d),
                    )
                }),
                Err(e) => ({
                    let lns = views(old(self).lines@);
                    let d = old(self).file.split;
                    &&& e == GridError::IndexOutOfRange
                    &&& !(1 <= line <= lns.len() && 1 <= row <= spec_split(
                        lns[line - 1],
                        d,
                    ).len())
                    &&& views(final(self).lines@) == lns
                }),
            },
    {
        if line < 1 || line > self.lines.len() {
            return Err(GridError::IndexOutOfRange);
        }
        let mut fields = split_fields(self.lines[line - 1].as_str(), self.file.split);
        if row < 1 || row > fields.len() {
            return Err(GridError::IndexOutOfRange);
        }
        fields.set(row - 1, String::from_str(value));
        proof {
            assert(views(fields@) =~~= spec_split(views(old(self).lines@)[line - 1],
                old(self).file.split).update(row - 1, value@));
        }
        let joined = join_fields(&fields, self.file.split);
        self.lines.set(line - 1, joined);
        proof {
            assert(views(self.lines@) =~~= views(old(self).lines@).update(
                line - 1,
                spec_join(
                    spec_split(views(old(self).lines@)[line - 1], old(self).file.split).update(
                        row - 1,
                        value@,
                    ),
                    old(self).file.split,
                ),
            ));
        }
        Ok(())
    }

    /// The full replacement file body: every current line followed by a
    /// newline. Writing this to the handle's path is the commit.
    pub fn render(&self) -> (r: String)
        ensures
            r@ == spec_unlines(views(self.lines@)),
    {
        join_lines(&self.lines)
    }
}

/// A build session: the lines of an entirely new file body, appended via
/// [`Builder::write_line`] and rendered by [`Builder::render`].
pub struct Builder {
    /// The lines accumulated so far, in order.
    pub lines: Vec<String>,
    /// The handle this session was spawned from.
    pub file: FileAPI,
}

impl Builder {
    fn from(file: &FileAPI) -> (r: Builder)
        ensures
            r.lines@.len() == 0,
            r.file.path@ == file.path@,
            r.file.split == file.split,
    {
        Builder { lines: Vec::new(), file: file.clone() }
    }

    /// Appends one raw line, unsplit and unparsed.
    pub fn write_line(&mut self, line: &str)
        ensures
            views(final(self).lines@) == views(old(self).lines@).push(line@),
            final(self).file.path@ == old(self).file.path@,
            final(self).file.split == old(self).file.split,
    {
        self.lines.push(String::from_str(line));
        proof {
            assert(views(self.lines@) =~~= views(old(self).lines@).push(line@));
        }
    }

    /// The full new file body: every accumulated line followed by a
    /// newline. Writing this to the handle's path is the commit.
    pub fn render(&self) -> (r: String)
        ensures
            r@ == spec_unlines(views(self.lines@)),
    {
        join_lines(&self.lines)
    }
}

} // verus!
