//! Reading a text as a linear system.
//!
//! The text holds one row of numbers per line. The first line that holds any
//! token fixes the width `d` of every row. The first `d * d` numbers, row by
//! row, are the coefficient matrix; whatever follows is the right-hand side.
//! Lines without a token are passed over, but they count when a fault names
//! its line.
use crate::number::{is_number, numbers_view, Number};
use crate::search::{first, lemma_first_from_is};
use crate::text::{lines, slices_view, split_lines, split_tokens, tokens};
use vstd::prelude::*;
use vstd::slice::slice_to_vec;
use vstd::string::StringSliceAdditionalSpecFns;

verus! {

/// Why a text is not a linear system, as a mathematical value.
pub enum ParseFault {
    /// No line holds a token.
    EmptyInput,
    /// The token `token` on line `line_index` is not a number.
    MalformedNumber { token: Seq<u8>, line_index: int },
    /// Line `line_index` holds `actual` numbers where `expected` are due.
    RowLengthMismatch { expected: int, actual: int, line_index: int },
    /// The rows hold fewer numbers than the coefficient matrix needs.
    InsufficientData,
}

/// A linear system as a mathematical value: the width, the coefficients row
/// by row, and the right-hand side. Each number is the text it was written
/// as.
pub struct SystemModel {
    pub dimension: nat,
    pub matrix: Seq<Seq<u8>>,
    pub vector: Seq<Seq<u8>>,
}

/// Why a text is not a linear system.
#[derive(Debug, PartialEq, Eq)]
pub enum ParseError {
    /// No line holds a token.
    EmptyInput,
    /// A token is not a number. Lines are counted from zero.
    MalformedNumber { token: Vec<u8>, line_index: usize },
    /// A line holds another count of numbers than the first row. Lines are
    /// counted from zero.
    RowLengthMismatch { expected: usize, actual: usize, line_index: usize },
    /// The rows hold fewer numbers than the coefficient matrix needs.
    InsufficientData,
}

impl View for ParseError {
    type V = ParseFault;

    open spec fn view(&self) -> ParseFault {
        match self {
            ParseError::EmptyInput => ParseFault::EmptyInput,
            ParseError::MalformedNumber { token, line_index } => ParseFault::MalformedNumber {
                token: token@,
                line_index: *line_index as int,
            },
            ParseError::RowLengthMismatch { expected, actual, line_index } => {
                ParseFault::RowLengthMismatch {
                    expected: *expected as int,
                    actual: *actual as int,
                    line_index: *line_index as int,
                }
            },
            ParseError::InsufficientData => ParseFault::InsufficientData,
        }
    }
}

/// A square coefficient matrix, stored row by row, and a right-hand side.
///
/// The matrix always holds `dimension * dimension` numbers. The length of
/// the right-hand side is whatever the text held beyond the matrix.
#[derive(Debug, PartialEq, Eq)]
pub struct LinearSystem {
    dimension: usize,
    matrix: Vec<Number>,
    vector: Vec<Number>,
}

impl View for LinearSystem {
    type V = SystemModel;

    closed spec fn view(&self) -> SystemModel {
        SystemModel {
            dimension: self.dimension as nat,
            matrix: numbers_view(self.matrix@),
            vector: numbers_view(self.vector@),
        }
    }
}

impl LinearSystem {
    #[verifier::type_invariant]
    spec fn well_formed(self) -> bool {
        self.matrix@.len() == self.dimension * self.dimension
    }

    /// The number of rows, and of columns, of the matrix.
    pub fn dimension(&self) -> (d: usize)
        ensures
            d == self@.dimension,
            self@.matrix.len() == d * d,
    {
        proof {
            use_type_invariant(self);
        }
        self.dimension
    }

    /// The coefficients, row by row.
    pub fn matrix(&self) -> (m: &Vec<Number>)
        ensures
            numbers_view(m@) == self@.matrix,
            m@.len() == self@.dimension * self@.dimension,
    {
        proof {
            use_type_invariant(self);
        }
        &self.matrix
    }

    /// The right-hand side.
    pub fn vector(&self) -> (v: &Vec<Number>)
        ensures
            numbers_view(v@) == self@.vector,
    {
        &self.vector
    }

    /// Whether the right-hand side holds one number for each row.
    ///
    /// Reading a text does not ask for it: whatever follows the matrix is
    /// the right-hand side, be it nothing or more rows than one.
    pub fn has_matching_vector(&self) -> (fits: bool)
        ensures
            fits == (self@.vector.len() == self@.dimension),
    {
        self.vector.len() == self.dimension
    }

    /// The coefficient in row `row` and column `col`, both counted from
    /// zero.
    pub fn coefficient(&self, row: usize, col: usize) -> (c: &Number)
        requires
            row < self@.dimension,
            col < self@.dimension,
        ensures
            0 <= row * self@.dimension + col < self@.matrix.len(),
            c@ == self@.matrix[row * self@.dimension + col],
    {
        proof {
            use_type_invariant(self);
            let d = self.dimension as int;
            assert(row * d + col < d * d) by (nonlinear_arith)
                requires
                    0 <= row < d,
                    0 <= col < d,
            ;
            assert(0 <= row * d) by (nonlinear_arith)
                requires
                    0 <= row,
                    0 <= d,
            ;
        }
        let size = self.matrix.len();
        assert(row * self.dimension + col < size);
        &self.matrix[row * self.dimension + col]
    }
}

/// The predicate that holds of a token that is not a number.
pub open spec fn not_a_number() -> spec_fn(Seq<u8>) -> bool {
    |t: Seq<u8>| !is_number(t)
}

/// The predicate that holds of a row with at least one token.
pub open spec fn has_content() -> spec_fn(Seq<Seq<u8>>) -> bool {
    |row: Seq<Seq<u8>>| row.len() > 0
}

/// The predicate that holds of a row with a fault, where rows are `width`
/// wide.
pub open spec fn is_faulty(width: int) -> spec_fn(Seq<Seq<u8>>) -> bool {
    |row: Seq<Seq<u8>>| row_fault(row, width, 0) is Some
}

/// What one line yields: its tokens, if each is a number, else the fault of
/// its first token that is none.
pub open spec fn read_row(line: Seq<u8>, line_index: int) -> Result<Seq<Seq<u8>>, ParseFault> {
    let row = tokens(line);
    let bad = first(row, not_a_number());
    if bad < row.len() {
        Err(ParseFault::MalformedNumber { token: row[bad], line_index })
    } else {
        Ok(row)
    }
}

/// The fault of the row on line `line_index`, where rows are `width` wide.
///
/// A row without a token has none. A token that is not a number comes
/// before a wrong count.
pub open spec fn row_fault(row: Seq<Seq<u8>>, width: int, line_index: int) -> Option<ParseFault> {
    let bad = first(row, not_a_number());
    if bad < row.len() {
        Some(ParseFault::MalformedNumber { token: row[bad], line_index })
    } else if row.len() != 0 && row.len() != width {
        Some(
            ParseFault::RowLengthMismatch { expected: width, actual: row.len() as int, line_index },
        )
    } else {
        None
    }
}

/// The rows of a text: the tokens of each of its lines.
pub open spec fn rows(text: Seq<u8>) -> Seq<Seq<Seq<u8>>> {
    lines(text).map_values(|line: Seq<u8>| tokens(line))
}

/// What a text yields.
///
/// Without a row that holds a token the input is empty. Else the first such
/// row fixes the width, and the first row with a fault, if there is one,
/// decides. Else all tokens, in order, are cut after the square of the
/// width, if there are that many.
pub open spec fn outcome(text: Seq<u8>) -> Result<SystemModel, ParseFault> {
    let rs = rows(text);
    let head = first(rs, has_content());
    if head >= rs.len() {
        Err(ParseFault::EmptyInput)
    } else {
        let width = rs[head].len() as int;
        let bad = first(rs, is_faulty(width));
        if bad < rs.len() {
            Err(row_fault(rs[bad], width, bad).unwrap())
        } else {
            let all = rs.flatten();
            if all.len() < width * width {
                Err(ParseFault::InsufficientData)
            } else {
                Ok(
                    SystemModel {
                        dimension: width as nat,
                        matrix: all.take(width * width),
                        vector: all.skip(width * width),
                    },
                )
            }
        }
    }
}

/// Whether the result `r` is what `o` describes.
pub open spec fn parsed_as(
    r: Result<LinearSystem, ParseError>,
    o: Result<SystemModel, ParseFault>,
) -> bool {
    match o {
        Ok(system) => r is Ok && r->Ok_0@ == system,
        Err(fault) => r is Err && r->Err_0@ == fault,
    }
}

/// Reads the numbers of one line.
///
/// Returns the numbers in order, none for a line without a token, or the
/// fault of the first token that is not a number.
pub fn parse_row(line: &[u8], line_index: usize) -> (r: Result<Vec<Number>, ParseError>)
    ensures
        match read_row(line@, line_index as int) {
            Ok(row) => r is Ok && numbers_view(r->Ok_0@) == row,
            Err(fault) => r is Err && r->Err_0@ == fault,
        },
{
    let found = split_tokens(line);
    let ghost row = tokens(line@);
    let mut values: Vec<Number> = Vec::new();
    let mut j: usize = 0;
    while j < found.len()
        invariant
            j <= found@.len(),
            slices_view(found@) == row,
            row == tokens(line@),
            values@.len() == j,
            forall|k: int| 0 <= k < j ==> (#[trigger] values@[k])@ == row[k],
            forall|k: int| 0 <= k < j ==> !not_a_number()(#[trigger] row[k]),
        decreases found@.len() - j,
    {
        let token: &[u8] = found[j];
        assert(token@ == row[j as int]);
        match Number::new(token) {
            Some(number) => {
                values.push(number);
            },
            None => {
                proof {
                    lemma_first_from_is(row, not_a_number(), 0, j as int);
                }
                return Err(ParseError::MalformedNumber { token: slice_to_vec(token), line_index });
            },
        }
        j += 1;
    }
    proof {
        lemma_first_from_is(row, not_a_number(), 0, row.len() as int);
        assert(numbers_view(values@) =~= row);
    }
    Ok(values)
}

/// The width that the first row fixes for every row: the count of its
/// numbers.
pub fn infer_dimension(first_row: &Vec<Number>) -> (d: usize)
    ensures
        d == first_row@.len(),
{
    first_row.len()
}

/// Reads a text, given as bytes, as a linear system.
pub fn parse_bytes(text: &[u8]) -> (r: Result<LinearSystem, ParseError>)
    ensures
        parsed_as(r, outcome(text@)),
{
    let found = split_lines(text);
    let ghost rs = rows(text@);
    let mut buffer: Vec<Number> = Vec::new();
    let mut width: usize = 0;
    let mut count: usize = 0;
    let ghost mut head: int = 0;
    let mut i: usize = 0;
    assert(rs.take(0) =~= Seq::<Seq<Seq<u8>>>::empty());
    assert(rs.take(0).flatten() =~= Seq::<Seq<u8>>::empty());
    assert(numbers_view(buffer@) =~= Seq::<Seq<u8>>::empty());
    while i < found.len()
        invariant
            i <= found@.len(),
            slices_view(found@) == lines(text@),
            rs == rows(text@),
            rs.len() == found@.len(),
            count <= i,
            numbers_view(buffer@) == rs.take(i as int).flatten(),
            buffer@.len() == count * width,
            width == 0 ==> count == 0 && forall|k: int|
                0 <= k < i ==> !has_content()(#[trigger] rs[k]),
            width > 0 ==> 0 <= head < i && first(rs, has_content()) == head && rs[head].len()
                == width && count > 0,
            width > 0 ==> forall|k: int| 0 <= k < i ==> !is_faulty(width as int)(#[trigger] rs[k]),
        decreases found@.len() - i,
    {
        let line: &[u8] = found[i];
        assert(line@ == lines(text@)[i as int]);
        assert(rs[i as int] == tokens(line@));
        let ghost row = rs[i as int];
        assert(rs.take(i + 1) =~= rs.take(i as int).push(row));
        proof {
            rs.take(i as int).lemma_flatten_push(row);
        }
        assert(rs.take(i + 1).flatten() =~= rs.take(i as int).flatten() + row);
        let mut values = match parse_row(line, i) {
            Ok(values) => values,
            Err(fault) => {
                proof {
                    if width == 0 {
                        lemma_first_from_is(rs, has_content(), 0, i as int);
                        let w = row.len() as int;
                        assert forall|k: int| 0 <= k < i implies !is_faulty(w)(
                            #[trigger] rs[k],
                        ) by {
                            assert(!has_content()(rs[k]));
                            lemma_first_from_is(rs[k], not_a_number(), 0, 0);
                        }
                        lemma_first_from_is(rs, is_faulty(w), 0, i as int);
                    } else {
                        lemma_first_from_is(rs, is_faulty(width as int), 0, i as int);
                    }
                }
                return Err(fault);
            },
        };
        let actual = values.len();
        if actual > 0 {
            if width == 0 {
                proof {
                    head = i as int;
                    lemma_first_from_is(rs, has_content(), 0, i as int);
                    assert forall|k: int| 0 <= k < i + 1 implies !is_faulty(actual as int)(
                        #[trigger] rs[k],
                    ) by {
                        if k < i {
                            assert(!has_content()(rs[k]));
                            lemma_first_from_is(rs[k], not_a_number(), 0, 0);
                        }
                    }
                    assert(buffer@.len() == 0);
                }
                width = infer_dimension(&values);
            } else if actual != width {
                proof {
                    lemma_first_from_is(rs, is_faulty(width as int), 0, i as int);
                }
                return Err(
                    ParseError::RowLengthMismatch { expected: width, actual, line_index: i },
                );
            }
            let ghost before = buffer@;
            let ghost added = values@;
            assert(numbers_view(added) == row);
            buffer.append(&mut values);
            assert(numbers_view(buffer@) =~= numbers_view(before) + numbers_view(added));
            assert((count + 1) * width == count * width + width) by (nonlinear_arith);
            count += 1;
        } else {
            assert(rs.take(i as int).flatten() + row =~= rs.take(i as int).flatten());
        }
        i += 1;
    }
    assert(rs.take(i as int) =~= rs);
    if width == 0 {
        proof {
            lemma_first_from_is(rs, has_content(), 0, rs.len() as int);
        }
        return Err(ParseError::EmptyInput);
    }
    proof {
        lemma_first_from_is(rs, is_faulty(width as int), 0, rs.len() as int);
    }
    if count < width {
        assert(count * width < width * width) by (nonlinear_arith)
            requires
                0 <= count < width,
        ;
        return Err(ParseError::InsufficientData);
    }
    assert(width * width <= count * width) by (nonlinear_arith)
        requires
            0 < width <= count,
    ;
    let ghost all = buffer@;
    let size = buffer.len();
    assert(width * width <= size);
    let vector = buffer.split_off(width * width);
    assert(numbers_view(buffer@) =~= numbers_view(all).take(width * width));
    assert(numbers_view(vector@) =~= numbers_view(all).skip(width * width));
    Ok(LinearSystem { dimension: width, matrix: buffer, vector })
}

/// Reads a text as a linear system.
pub fn parse(text: &str) -> (r: Result<LinearSystem, ParseError>)
    ensures
        parsed_as(r, outcome(text.spec_bytes())),
{
    parse_bytes(text.as_bytes())
}

} // verus!
