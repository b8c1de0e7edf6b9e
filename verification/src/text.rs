//! Cutting a text into lines and a line into tokens.
//!
//! A text is modelled by its bytes. Lines end at a line feed; tokens are the
//! maximal runs of bytes that are not ASCII white space. Both cuts only look
//! at bytes below 0x80, so they never part the bytes of one UTF-8 character.
use crate::search::{first_from, lemma_first_from_bounds};
use vstd::prelude::*;
use vstd::slice::slice_subrange;

verus! {

/// The byte that ends a line.
pub const LINE_FEED: u8 = 0x0a;

/// Whether `b` separates tokens: the blank, and the ASCII control bytes from
/// horizontal tab to carriage return.
pub open spec fn is_space(b: u8) -> bool {
    b == 0x20 || (0x09 <= b && b <= 0x0d)
}

/// The predicate that holds of the byte that ends a line.
pub open spec fn is_line_feed() -> spec_fn(u8) -> bool {
    |b: u8| b == LINE_FEED
}

/// The predicate that holds of a byte that separates tokens.
pub open spec fn is_separator() -> spec_fn(u8) -> bool {
    |b: u8| is_space(b)
}

/// The end of the line that starts at `from`: the least index at or after
/// `from` that holds a line feed, or the length of `s` where there is none.
pub open spec fn line_end(s: Seq<u8>, from: int) -> int {
    first_from(s, is_line_feed(), from)
}

/// The lines of `s` that start at or after `from`, in order.
///
/// A line feed ends a line and does not belong to it. Nothing follows the
/// last line feed of a text that ends in one: no empty line is reported
/// there. Every other empty line is kept.
pub open spec fn lines_from(s: Seq<u8>, from: int) -> Seq<Seq<u8>>
    decreases s.len() + 1 - from,
{
    if from < 0 || from >= s.len() {
        Seq::empty()
    } else {
        let end = line_end(s, from);
        proof {
            lemma_line_end(s, from);
        }
        seq![s.subrange(from, end)] + lines_from(s, end + 1)
    }
}

/// The lines of a text.
pub open spec fn lines(s: Seq<u8>) -> Seq<Seq<u8>> {
    lines_from(s, 0)
}

/// The end of the token that starts at `from`: the least index at or after
/// `from` that holds white space, or the length of `s` where there is none.
pub open spec fn token_end(s: Seq<u8>, from: int) -> int {
    first_from(s, is_separator(), from)
}

/// The tokens of `s` that start at or after `from`, in order.
pub open spec fn tokens_from(s: Seq<u8>, from: int) -> Seq<Seq<u8>>
    decreases s.len() - from,
{
    if from < 0 || from >= s.len() {
        Seq::empty()
    } else if is_space(s[from]) {
        tokens_from(s, from + 1)
    } else {
        let end = token_end(s, from);
        proof {
            lemma_token_end(s, from);
        }
        seq![s.subrange(from, end)] + tokens_from(s, end)
    }
}

/// The tokens of a line: its maximal runs of bytes that are not white space.
pub open spec fn tokens(s: Seq<u8>) -> Seq<Seq<u8>> {
    tokens_from(s, 0)
}

/// What a vector of byte slices holds, slice by slice.
pub open spec fn slices_view(v: Seq<&[u8]>) -> Seq<Seq<u8>> {
    Seq::new(v.len(), |i: int| v[i]@)
}

/// `line_end` stays inside the text, passes no line feed and stops at one.
pub proof fn lemma_line_end(s: Seq<u8>, from: int)
    requires
        0 <= from <= s.len(),
    ensures
        from <= line_end(s, from) <= s.len(),
        forall|j: int| from <= j < line_end(s, from) ==> s[j] != LINE_FEED,
        line_end(s, from) < s.len() ==> s[line_end(s, from)] == LINE_FEED,
{
    lemma_first_from_bounds(s, is_line_feed(), from);
    assert forall|j: int| from <= j < line_end(s, from) implies s[j] != LINE_FEED by {
        assert(!is_line_feed()(s[j]));
    }
}

/// `token_end` stays inside the text, passes no white space and stops at
/// some; it moves forward where a token starts.
pub proof fn lemma_token_end(s: Seq<u8>, from: int)
    requires
        0 <= from <= s.len(),
    ensures
        from <= token_end(s, from) <= s.len(),
        forall|j: int| from <= j < token_end(s, from) ==> !is_space(s[j]),
        token_end(s, from) < s.len() ==> is_space(s[token_end(s, from)]),
        from < s.len() && !is_space(s[from]) ==> from < token_end(s, from),
{
    lemma_first_from_bounds(s, is_separator(), from);
    assert forall|j: int| from <= j < token_end(s, from) implies !is_space(s[j]) by {
        assert(!is_separator()(s[j]));
    }
}

/// No line holds a line feed.
pub proof fn lemma_lines_hold_no_line_feed(s: Seq<u8>, from: int)
    requires
        0 <= from,
    ensures
        forall|i: int, j: int|
            0 <= i < lines_from(s, from).len() && 0 <= j < lines_from(s, from)[i].len()
                ==> (#[trigger] lines_from(s, from)[i][j]) != LINE_FEED,
    decreases s.len() + 1 - from,
{
    if from < s.len() {
        let end = line_end(s, from);
        lemma_line_end(s, from);
        lemma_lines_hold_no_line_feed(s, end + 1);
        let rest = lines_from(s, end + 1);
        let all = lines_from(s, from);
        assert forall|i: int, j: int| 0 <= i < all.len() && 0 <= j < all[i].len() implies (
        #[trigger] all[i][j]) != LINE_FEED by {
            if i == 0 {
                assert(all[0] == s.subrange(from, end));
            } else {
                assert(all[i] == rest[i - 1]);
            }
        }
    }
}

/// The lines `ls`, each with a line feed behind it, one after another.
pub open spec fn joined(ls: Seq<Seq<u8>>) -> Seq<u8>
    decreases ls.len(),
{
    if ls.len() == 0 {
        Seq::empty()
    } else {
        ls[0] + seq![LINE_FEED] + joined(ls.drop_first())
    }
}

/// The lines of a text, each with a line feed behind it, are the text
/// again; only the line feed that the text may lack at its end is added.
pub proof fn lemma_lines_join(s: Seq<u8>, from: int)
    requires
        0 <= from <= s.len(),
    ensures
        joined(lines_from(s, from)) == (if from == s.len() || s.last() == LINE_FEED {
            s.skip(from)
        } else {
            s.skip(from) + seq![LINE_FEED]
        }),
    decreases s.len() - from,
{
    if from < s.len() {
        let end = line_end(s, from);
        lemma_line_end(s, from);
        let line = s.subrange(from, end);
        let rest = lines_from(s, end + 1);
        let all = lines_from(s, from);
        assert(all[0] == line);
        assert(all.drop_first() =~= rest);
        if end < s.len() {
            lemma_lines_join(s, end + 1);
            assert(line + seq![LINE_FEED] =~= s.subrange(from, end + 1));
            assert(s.subrange(from, end + 1) + s.skip(end + 1) =~= s.skip(from));
            assert(s.subrange(from, end + 1) + (s.skip(end + 1) + seq![LINE_FEED]) =~= s.skip(from)
                + seq![LINE_FEED]);
        } else {
            assert(rest =~= Seq::<Seq<u8>>::empty());
            assert(joined(rest) =~= Seq::<u8>::empty());
            assert(s.last() != LINE_FEED);
            assert(line =~= s.skip(from));
            assert(line + seq![LINE_FEED] + Seq::<u8>::empty() =~= s.skip(from) + seq![LINE_FEED]);
        }
    } else {
        assert(joined(lines_from(s, from)) =~= s.skip(from));
    }
}

/// Every token holds at least one byte, and no white space.
pub proof fn lemma_tokens_are_words(s: Seq<u8>, from: int)
    requires
        0 <= from,
    ensures
        forall|i: int|
            0 <= i < tokens_from(s, from).len() ==> (#[trigger] tokens_from(s, from)[i]).len() > 0,
        forall|i: int, j: int|
            0 <= i < tokens_from(s, from).len() && 0 <= j < tokens_from(s, from)[i].len()
                ==> !is_space(#[trigger] tokens_from(s, from)[i][j]),
    decreases s.len() - from,
{
    let all = tokens_from(s, from);
    if from < s.len() {
        if is_space(s[from]) {
            lemma_tokens_are_words(s, from + 1);
            assert(all == tokens_from(s, from + 1));
        } else {
            let end = token_end(s, from);
            lemma_token_end(s, from);
            lemma_tokens_are_words(s, end);
            let rest = tokens_from(s, end);
            assert(all == seq![s.subrange(from, end)] + rest);
            assert forall|i: int| 0 <= i < all.len() implies (#[trigger] all[i]).len() > 0 by {
                if i == 0 {
                    assert(all[0] == s.subrange(from, end));
                } else {
                    assert(all[i] == rest[i - 1]);
                }
            }
            assert forall|i: int, j: int| 0 <= i < all.len() && 0 <= j < all[i].len() implies !is_space(
            #[trigger] all[i][j]) by {
                if i == 0 {
                    assert(all[0] == s.subrange(from, end));
                    assert(all[0][j] == s[from + j]);
                } else {
                    assert(all[i] == rest[i - 1]);
                }
            }
        }
    }
}

/// The predicate that holds of a byte that is no white space.
pub open spec fn is_ink() -> spec_fn(u8) -> bool {
    |b: u8| !is_space(b)
}

/// Filtering keeps a sequence whose every element passes.
proof fn lemma_filter_keeps_all(s: Seq<u8>, p: spec_fn(u8) -> bool)
    requires
        forall|i: int| 0 <= i < s.len() ==> p(#[trigger] s[i]),
    ensures
        s.filter(p) == s,
    decreases s.len(),
{
    reveal(Seq::filter);
    if s.len() > 0 {
        lemma_filter_keeps_all(s.drop_last(), p);
        assert(s.drop_last().push(s.last()) =~= s);
    }
}

/// The tokens of a line, one after another, are the bytes of the line that
/// are no white space, in their order: cutting loses nothing else and adds
/// nothing.
pub proof fn lemma_tokens_hold_the_ink(s: Seq<u8>, from: int)
    requires
        0 <= from <= s.len(),
    ensures
        tokens_from(s, from).flatten() == s.skip(from).filter(is_ink()),
    decreases s.len() - from,
{
    let rest_of_line = s.skip(from);
    if from >= s.len() {
        reveal(Seq::filter);
        assert(rest_of_line =~= Seq::<u8>::empty());
        assert(tokens_from(s, from).flatten() =~= Seq::<u8>::empty());
    } else if is_space(s[from]) {
        lemma_tokens_hold_the_ink(s, from + 1);
        let head = seq![s[from]];
        assert(rest_of_line =~= head + s.skip(from + 1));
        Seq::filter_distributes_over_add(head, s.skip(from + 1), is_ink());
        assert(head.filter(is_ink()) =~= Seq::<u8>::empty()) by {
            reveal(Seq::filter);
            assert(head.drop_last() =~= Seq::<u8>::empty());
            assert(head.drop_last().filter(is_ink()) =~= Seq::<u8>::empty());
        }
        assert(Seq::<u8>::empty() + s.skip(from + 1).filter(is_ink()) =~= s.skip(from + 1).filter(
            is_ink(),
        ));
    } else {
        let end = token_end(s, from);
        lemma_token_end(s, from);
        lemma_tokens_hold_the_ink(s, end);
        let run = s.subrange(from, end);
        let rest = tokens_from(s, end);
        let all = tokens_from(s, from);
        assert(rest_of_line =~= run + s.skip(end));
        Seq::filter_distributes_over_add(run, s.skip(end), is_ink());
        assert forall|i: int| 0 <= i < run.len() implies is_ink()(#[trigger] run[i]) by {
            assert(run[i] == s[from + i]);
        }
        lemma_filter_keeps_all(run, is_ink());
        assert(all.first() == run);
        assert(all.drop_first() =~= rest);
        assert(all.flatten() =~= run + rest.flatten());
    }
}

/// Whether a byte separates tokens.
pub fn byte_is_space(b: u8) -> (r: bool)
    ensures
        r == is_space(b),
{
    b == 0x20 || (0x09 <= b && b <= 0x0d)
}

/// Finds where the line that starts at `from` ends.
pub fn find_line_end(text: &[u8], from: usize) -> (end: usize)
    requires
        from <= text@.len(),
    ensures
        end == line_end(text@, from as int),
        from <= end <= text@.len(),
{
    let mut i: usize = from;
    while i < text.len() && text[i] != LINE_FEED
        invariant
            from <= i <= text@.len(),
            line_end(text@, i as int) == line_end(text@, from as int),
        decreases text@.len() - i,
    {
        i += 1;
    }
    i
}

/// Finds where the token that starts at `from` ends.
pub fn find_token_end(line: &[u8], from: usize) -> (end: usize)
    requires
        from <= line@.len(),
    ensures
        end == token_end(line@, from as int),
        from <= end <= line@.len(),
{
    let mut i: usize = from;
    while i < line.len() && !byte_is_space(line[i])
        invariant
            from <= i <= line@.len(),
            token_end(line@, i as int) == token_end(line@, from as int),
        decreases line@.len() - i,
    {
        i += 1;
    }
    i
}

/// Cuts a text into its lines.
pub fn split_lines<'a>(text: &'a [u8]) -> (out: Vec<&'a [u8]>)
    ensures
        slices_view(out@) == lines(text@),
{
    let mut out: Vec<&'a [u8]> = Vec::new();
    let mut pos: usize = 0;
    assert(slices_view(out@) + lines_from(text@, 0) =~= lines(text@));
    while pos < text.len()
        invariant
            pos <= text@.len(),
            slices_view(out@) + lines_from(text@, pos as int) == lines(text@),
        decreases text@.len() - pos,
    {
        let end = find_line_end(text, pos);
        let ghost before = out@;
        out.push(slice_subrange(text, pos, end));
        assert(slices_view(out@) =~= slices_view(before) + seq![text@.subrange(pos as int, end as int)]);
        assert(slices_view(out@) + lines_from(text@, end + 1) =~= slices_view(before)
            + lines_from(text@, pos as int));
        if end < text.len() {
            pos = end + 1;
        } else {
            assert(lines_from(text@, end + 1) =~= lines_from(text@, end as int));
            pos = end;
        }
    }
    assert(slices_view(out@) + lines_from(text@, pos as int) =~= slices_view(out@));
    out
}

/// Cuts a line into its tokens.
pub fn split_tokens<'a>(line: &'a [u8]) -> (out: Vec<&'a [u8]>)
    ensures
        slices_view(out@) == tokens(line@),
{
    let mut out: Vec<&'a [u8]> = Vec::new();
    let mut pos: usize = 0;
    assert(slices_view(out@) + tokens_from(line@, 0) =~= tokens(line@));
    while pos < line.len()
        invariant
            pos <= line@.len(),
            slices_view(out@) + tokens_from(line@, pos as int) == tokens(line@),
        decreases line@.len() - pos,
    {
        if byte_is_space(line[pos]) {
            pos += 1;
        } else {
            let end = find_token_end(line, pos);
            proof {
                lemma_token_end(line@, pos as int);
            }
            let ghost before = out@;
            out.push(slice_subrange(line, pos, end));
            assert(slices_view(out@) =~= slices_view(before) + seq![
                line@.subrange(pos as int, end as int),
            ]);
            assert(slices_view(out@) + tokens_from(line@, end as int) =~= slices_view(before)
                + tokens_from(line@, pos as int));
            pos = end;
        }
    }
    assert(slices_view(out@) + tokens_from(line@, pos as int) =~= slices_view(out@));
    out
}

} // verus!
