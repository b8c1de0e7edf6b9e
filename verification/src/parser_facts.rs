//! What holds of every text that is read as a linear system.
use crate::number::is_number;
use crate::parser::{
    has_content, is_faulty, not_a_number, outcome, row_fault, rows, ParseFault, SystemModel,
};
use crate::search::{first, lemma_first_from_bounds, lemma_first_from_is};
use vstd::prelude::*;
use vstd::seq_lib::lemma_flatten_concat;

verus! {

/// The rows of a text that hold a token, in order.
pub open spec fn content_rows(text: Seq<u8>) -> Seq<Seq<Seq<u8>>> {
    rows(text).filter(has_content())
}

/// Whether every token of the first `upto` rows is a number.
pub open spec fn numbers_only(rs: Seq<Seq<Seq<u8>>>, upto: int) -> bool {
    forall|i: int, j: int|
        0 <= i < upto && i < rs.len() && 0 <= j < rs[i].len() ==> is_number(#[trigger] rs[i][j])
}

/// Whether each of the first `upto` rows holds `width` tokens or none.
pub open spec fn even_rows(rs: Seq<Seq<Seq<u8>>>, width: int, upto: int) -> bool {
    forall|i: int|
        0 <= i < upto && i < rs.len() ==> (#[trigger] rs[i]).len() == 0 || rs[i].len() == width
}

/// A row of numbers has no token that is not a number.
proof fn lemma_row_of_numbers(row: Seq<Seq<u8>>)
    requires
        forall|j: int| 0 <= j < row.len() ==> is_number(#[trigger] row[j]),
    ensures
        first(row, not_a_number()) == row.len(),
{
    lemma_first_from_is(row, not_a_number(), 0, row.len() as int);
}

/// Rows of numbers that are `width` wide, or hold nothing, have no fault.
proof fn lemma_sound_rows(rs: Seq<Seq<Seq<u8>>>, width: int, upto: int)
    requires
        0 <= upto <= rs.len(),
        numbers_only(rs, upto),
        even_rows(rs, width, upto),
    ensures
        forall|i: int| 0 <= i < upto ==> !is_faulty(width)(#[trigger] rs[i]),
{
    assert forall|i: int| 0 <= i < upto implies !is_faulty(width)(#[trigger] rs[i]) by {
        assert forall|j: int| 0 <= j < rs[i].len() implies is_number(#[trigger] rs[i][j]) by {}
        lemma_row_of_numbers(rs[i]);
    }
}

/// Rows without a token add nothing to the tokens of all rows.
proof fn lemma_flatten_content(rs: Seq<Seq<Seq<u8>>>)
    ensures
        rs.flatten() == rs.filter(has_content()).flatten(),
    decreases rs.len(),
{
    reveal(Seq::filter);
    if rs.len() == 0 {
    } else {
        let front = rs.drop_last();
        let last = rs.last();
        lemma_flatten_content(front);
        assert(rs =~= front.push(last));
        front.lemma_flatten_push(last);
        front.lemma_filter_push(last, has_content());
        if last.len() > 0 {
            front.filter(has_content()).lemma_flatten_push(last);
        } else {
            assert(front.flatten() + last =~= front.flatten());
        }
    }
}

/// Rows that each hold `width` tokens hold `width` times their count.
proof fn lemma_flatten_even(rs: Seq<Seq<Seq<u8>>>, width: int)
    requires
        forall|i: int| 0 <= i < rs.len() ==> (#[trigger] rs[i]).len() == width,
    ensures
        rs.flatten().len() == rs.len() * width,
    decreases rs.len(),
{
    if rs.len() == 0 {
        assert(rs.flatten() =~= Seq::<Seq<u8>>::empty());
    } else {
        let front = rs.drop_last();
        let last = rs.last();
        lemma_flatten_even(front, width);
        assert(rs =~= front.push(last));
        front.lemma_flatten_push(last);
        assert((front.len() + 1) * width == front.len() * width + width) by (nonlinear_arith);
    }
}

/// The rows with a token, where `rs` holds rows of numbers that are `width`
/// wide or hold nothing: each holds `width` tokens.
proof fn lemma_content_is_even(rs: Seq<Seq<Seq<u8>>>, width: int)
    requires
        even_rows(rs, width, rs.len() as int),
    ensures
        forall|i: int|
            0 <= i < rs.filter(has_content()).len() ==> (#[trigger] rs.filter(
                has_content(),
            )[i]).len() == width,
{
    let kept = rs.filter(has_content());
    assert forall|i: int| 0 <= i < kept.len() implies (#[trigger] kept[i]).len() == width by {
        rs.lemma_filter_pred(has_content(), i);
        assert(kept.contains(kept[i]));
        rs.lemma_filter_contains_rev(has_content(), kept[i]);
        let k = choose|k: int| 0 <= k < rs.len() && rs[k] == kept[i];
        assert(rs[k].len() == 0 || rs[k].len() == width);
    }
}

/// A text without a token in any line is empty input, and no other text is.
pub proof fn lemma_empty_input(text: Seq<u8>)
    ensures
        outcome(text) == Err::<SystemModel, ParseFault>(ParseFault::EmptyInput) <==> (forall|
            i: int,
        |
            0 <= i < rows(text).len() ==> (#[trigger] rows(text)[i]).len() == 0),
{
    let rs = rows(text);
    let head = first(rs, has_content());
    lemma_first_from_bounds(rs, has_content(), 0);
    if forall|i: int| 0 <= i < rs.len() ==> (#[trigger] rs[i]).len() == 0 {
        assert(head == rs.len()) by {
            if head < rs.len() {
                assert(has_content()(rs[head]));
            }
        }
    }
    if outcome(text) == Err::<SystemModel, ParseFault>(ParseFault::EmptyInput) {
        if head < rs.len() {
            let width = rs[head].len() as int;
            let bad = first(rs, is_faulty(width));
            lemma_first_from_bounds(rs, is_faulty(width), 0);
            if bad < rs.len() {
                assert(is_faulty(width)(rs[bad]));
                assert(row_fault(rs[bad], width, bad) is Some);
            }
            assert(false);
        }
        assert forall|i: int| 0 <= i < rs.len() implies (#[trigger] rs[i]).len() == 0 by {
            assert(!has_content()(rs[i]));
        }
    }
}

/// A text in which a row holds another count of tokens than the first row
/// yields no system.
///
/// Here `line` is any line with a token whose count differs from that of
/// the first such line.
pub proof fn lemma_uneven_rows_fail(text: Seq<u8>, line: int)
    requires
        0 <= line < rows(text).len(),
        rows(text)[line].len() > 0,
        rows(text)[line].len() != rows(text)[first(rows(text), has_content())].len(),
    ensures
        outcome(text) is Err,
{
    let rs = rows(text);
    let head = first(rs, has_content());
    lemma_first_from_bounds(rs, has_content(), 0);
    assert(head <= line) by {
        if line < head {
            assert(!has_content()(rs[line]));
        }
    }
    let width = rs[head].len() as int;
    let bad = first(rs, is_faulty(width));
    lemma_first_from_bounds(rs, is_faulty(width), 0);
    if bad >= rs.len() {
        assert(!is_faulty(width)(rs[line]));
        assert(false);
    }
}

/// Where a line holds another count of tokens than the first row, and all
/// tokens up to and on that line are numbers, the fault is the mismatch of
/// the first such line: it names the count that was due, the count that was
/// found and the line.
///
/// Here `line` is any line with a token whose count differs from that of
/// the first line with a token.
pub proof fn lemma_row_length_mismatch(text: Seq<u8>, line: int)
    requires
        0 <= line < rows(text).len(),
        rows(text)[line].len() > 0,
        rows(text)[line].len() != rows(text)[first(rows(text), has_content())].len(),
        numbers_only(rows(text), line + 1),
    ensures
        outcome(text) matches Err(ParseFault::RowLengthMismatch { expected, actual, line_index })
            && expected == rows(text)[first(rows(text), has_content())].len()
            && 0 <= line_index <= line
            && actual == rows(text)[line_index].len()
            && actual != 0
            && actual != expected
            && even_rows(rows(text), expected, line_index),
{
    let rs = rows(text);
    let head = first(rs, has_content());
    lemma_first_from_bounds(rs, has_content(), 0);
    assert(head <= line) by {
        if line < head {
            assert(!has_content()(rs[line]));
        }
    }
    let width = rs[head].len() as int;
    assert forall|j: int| 0 <= j < rs[line].len() implies is_number(#[trigger] rs[line][j]) by {}
    lemma_row_of_numbers(rs[line]);
    assert(is_faulty(width)(rs[line]));
    let bad = first(rs, is_faulty(width));
    lemma_first_from_bounds(rs, is_faulty(width), 0);
    assert(bad <= line) by {
        if line < bad {
            assert(!is_faulty(width)(rs[line]));
        }
    }
    assert(is_faulty(width)(rs[bad]));
    assert forall|j: int| 0 <= j < rs[bad].len() implies is_number(#[trigger] rs[bad][j]) by {}
    lemma_row_of_numbers(rs[bad]);
    assert forall|k: int| 0 <= k < bad && k < rs.len() implies (#[trigger] rs[k]).len() == 0
        || rs[k].len() == width by {
        assert(!is_faulty(width)(rs[k]));
        assert forall|j: int| 0 <= j < rs[k].len() implies is_number(#[trigger] rs[k][j]) by {}
        lemma_row_of_numbers(rs[k]);
    }
}

/// Where every token is a number and every row is as wide as the first,
/// but the rows are fewer than the first is wide, the data is insufficient.
pub proof fn lemma_insufficient_data(text: Seq<u8>, width: int)
    requires
        numbers_only(rows(text), rows(text).len() as int),
        even_rows(rows(text), width, rows(text).len() as int),
        0 < content_rows(text).len() < width,
    ensures
        outcome(text) == Err::<SystemModel, ParseFault>(ParseFault::InsufficientData),
{
    let rs = rows(text);
    let kept = content_rows(text);
    lemma_head_is_even(rs, width);
    lemma_sound_rows(rs, width, rs.len() as int);
    lemma_first_from_is(rs, is_faulty(width), 0, rs.len() as int);
    lemma_flatten_content(rs);
    lemma_content_is_even(rs, width);
    lemma_flatten_even(kept, width);
    assert(kept.len() * width < width * width) by (nonlinear_arith)
        requires
            0 < kept.len() < width,
    ;
}

/// Where some row holds a token and every row holds `width` tokens or none,
/// the first row with a token holds `width`.
proof fn lemma_head_is_even(rs: Seq<Seq<Seq<u8>>>, width: int)
    requires
        even_rows(rs, width, rs.len() as int),
        rs.filter(has_content()).len() > 0,
    ensures
        first(rs, has_content()) < rs.len(),
        rs[first(rs, has_content())].len() == width,
        width > 0,
{
    let kept = rs.filter(has_content());
    let head = first(rs, has_content());
    lemma_first_from_bounds(rs, has_content(), 0);
    rs.lemma_filter_pred(has_content(), 0);
    assert(kept.contains(kept[0]));
    rs.lemma_filter_contains_rev(has_content(), kept[0]);
    let k = choose|k: int| 0 <= k < rs.len() && rs[k] == kept[0];
    assert(has_content()(rs[k]));
    assert(head <= k) by {
        if k < head {
            assert(!has_content()(rs[k]));
        }
    }
    assert(has_content()(rs[head]));
    assert(rs[head].len() == 0 || rs[head].len() == width);
}

/// Where every token is a number, every row is `width` wide and there are
/// at least `width` rows, the text is a system of dimension `width`: the
/// first `width` rows are its matrix, the rest its right-hand side.
///
/// Rows are the lines that hold a token.
pub proof fn lemma_sound_text_parses(text: Seq<u8>, width: int)
    requires
        numbers_only(rows(text), rows(text).len() as int),
        even_rows(rows(text), width, rows(text).len() as int),
        0 < width <= content_rows(text).len(),
    ensures
        outcome(text) == Ok::<SystemModel, ParseFault>(
            SystemModel {
                dimension: width as nat,
                matrix: content_rows(text).take(width).flatten(),
                vector: content_rows(text).skip(width).flatten(),
            },
        ),
        content_rows(text).take(width).flatten().len() == width * width,
{
    let rs = rows(text);
    let kept = content_rows(text);
    lemma_head_is_even(rs, width);
    lemma_sound_rows(rs, width, rs.len() as int);
    lemma_first_from_is(rs, is_faulty(width), 0, rs.len() as int);
    lemma_flatten_content(rs);
    lemma_content_is_even(rs, width);
    let upper = kept.take(width);
    let lower = kept.skip(width);
    assert(kept =~= upper + lower);
    lemma_flatten_concat(upper, lower);
    lemma_flatten_even(upper, width);
    lemma_flatten_even(kept, width);
    assert(width * width <= kept.len() * width) by (nonlinear_arith)
        requires
            0 < width <= kept.len(),
    ;
    let all = rs.flatten();
    assert(all =~= upper.flatten() + lower.flatten());
    assert(all.take(width * width) =~= upper.flatten());
    assert(all.skip(width * width) =~= lower.flatten());
}

/// A system that a text yields holds the square of its dimension in
/// coefficients, and each of its numbers is a number by the grammar.
pub proof fn lemma_system_is_sound(text: Seq<u8>)
    requires
        outcome(text) is Ok,
    ensures
        outcome(text)->Ok_0.dimension > 0,
        outcome(text)->Ok_0.matrix.len() == outcome(text)->Ok_0.dimension * outcome(
            text,
        )->Ok_0.dimension,
        forall|i: int|
            0 <= i < outcome(text)->Ok_0.matrix.len() ==> is_number(
                #[trigger] outcome(text)->Ok_0.matrix[i],
            ),
        forall|i: int|
            0 <= i < outcome(text)->Ok_0.vector.len() ==> is_number(
                #[trigger] outcome(text)->Ok_0.vector[i],
            ),
{
    let rs = rows(text);
    let head = first(rs, has_content());
    lemma_first_from_bounds(rs, has_content(), 0);
    let width = rs[head].len() as int;
    assert(has_content()(rs[head]));
    lemma_first_from_bounds(rs, is_faulty(width), 0);
    lemma_flatten_numbers(rs, width);
}

/// The tokens of rows without a fault are numbers.
proof fn lemma_flatten_numbers(rs: Seq<Seq<Seq<u8>>>, width: int)
    requires
        forall|i: int| 0 <= i < rs.len() ==> !is_faulty(width)(#[trigger] rs[i]),
    ensures
        forall|i: int| 0 <= i < rs.flatten().len() ==> is_number(#[trigger] rs.flatten()[i]),
    decreases rs.len(),
{
    if rs.len() == 0 {
        assert(rs.flatten() =~= Seq::<Seq<u8>>::empty());
    } else {
        let front = rs.drop_last();
        let last = rs.last();
        assert forall|i: int| 0 <= i < front.len() implies !is_faulty(width)(
            #[trigger] front[i],
        ) by {
            assert(front[i] == rs[i]);
        }
        lemma_flatten_numbers(front, width);
        assert(rs =~= front.push(last));
        front.lemma_flatten_push(last);
        assert(!is_faulty(width)(rs[rs.len() - 1]));
        lemma_first_from_bounds(last, not_a_number(), 0);
        assert forall|i: int| 0 <= i < rs.flatten().len() implies is_number(
            #[trigger] rs.flatten()[i],
        ) by {
            if i >= front.flatten().len() {
                let j = i - front.flatten().len();
                assert(rs.flatten()[i] == last[j]);
                assert(!not_a_number()(last[j]));
            } else {
                assert(rs.flatten()[i] == front.flatten()[i]);
            }
        }
    }
}

} // verus!
