//! CSV: writing a text as one field of a row, and what reading it gives back.
use crate::text::{joined, replace, replaced, to_chars};
use vstd::prelude::*;

verus! {

// ---------------------------------------------------------------------------
// Writing
// ---------------------------------------------------------------------------
/// The characters for whose sake a CSV field is put in quotes.
pub open spec fn needs_quotes(c: char) -> bool {
    c == ',' || c == '"' || c == '\n' || c == '\r'
}

/// Some character of `s` has to be put in quotes.
pub open spec fn is_special(s: Seq<char>) -> bool {
    exists|i: int| 0 <= i < s.len() && needs_quotes(#[trigger] s[i])
}

/// A text as a CSV field: in quotes, with every quote doubled, if it needs them.
pub open spec fn csv_field(s: Seq<char>) -> Seq<char> {
    if is_special(s) {
        "\""@ + replaced(s, '"', "\"\""@) + "\""@
    } else {
        s
    }
}

fn has_special(s: &str) -> (r: bool)
    ensures
        r == is_special(s@),
{
    let all: Vec<char> = to_chars(s);
    for i in 0..all.len()
        invariant
            all@ == s@,
            forall|j: int| 0 <= j < i ==> !needs_quotes(#[trigger] s@[j]),
    {
        let c: char = all[i];
        if c == ',' || c == '"' || c == '\n' || c == '\r' {
            assert(needs_quotes(s@[i as int]));
            return true;
        }
    }
    false
}

pub fn csv_escape(input: &str) -> (r: String)
    ensures
        r@ == csv_field(input@),
{
    if has_special(input) {
        let mut r: String = "\"".to_owned();
        r.append(replace(input, '"', "\"\"").as_str());
        r.append("\"");
        r
    } else {
        input.to_owned()
    }
}

// ---------------------------------------------------------------------------
// Reading
// ---------------------------------------------------------------------------
/// `s` with each two quotes that follow each other, from the end on, taken for one.
pub open spec fn undoubled(s: Seq<char>) -> Seq<char>
    decreases s.len(),
{
    if s.len() == 0 {
        s
    } else if s.len() >= 2 && s.last() == '"' {
        undoubled(s.take(s.len() - 2)).push('"')
    } else {
        undoubled(s.drop_last()).push(s.last())
    }
}

/// The text that a CSV field stands for.
pub open spec fn csv_value(field: Seq<char>) -> Seq<char> {
    if field.len() >= 2 && field[0] == '"' {
        undoubled(field.subrange(1, field.len() - 1))
    } else {
        field
    }
}

/// How many quotes `s` holds.
pub open spec fn quotes(s: Seq<char>) -> nat
    decreases s.len(),
{
    if s.len() == 0 {
        0
    } else {
        quotes(s.drop_last()) + if s.last() == '"' {
            1nat
        } else {
            0nat
        }
    }
}

/// The pieces of a row between the commas that do not stand in quotes.
pub open spec fn row_pieces(row: Seq<char>) -> Seq<Seq<char>>
    decreases row.len(),
{
    if row.len() == 0 {
        seq![Seq::empty()]
    } else {
        let before = row_pieces(row.drop_last());
        if row.last() == ',' && quotes(row.drop_last()) % 2 == 0 {
            before.push(Seq::empty())
        } else {
            before.drop_last().push(before.last().push(row.last()))
        }
    }
}

/// The texts that the fields of a row stand for. Behind each comma stands a space.
pub open spec fn csv_values(row: Seq<char>) -> Seq<Seq<char>> {
    let parts = row_pieces(row);
    Seq::new(
        parts.len(),
        |i: int|
            csv_value(
                if i == 0 {
                    parts[i]
                } else {
                    parts[i].skip(1)
                },
            ),
    )
}

// ---------------------------------------------------------------------------
// Laws
// ---------------------------------------------------------------------------
proof fn lemma_undoubled(s: Seq<char>)
    ensures
        undoubled(replaced(s, '"', "\"\""@)) == s,
    decreases s.len(),
{
    reveal_strlit("\"\"");
    let two = "\"\""@;
    if s.len() > 0 {
        let front = replaced(s.drop_last(), '"', two);
        lemma_undoubled(s.drop_last());
        assert(s =~= s.drop_last().push(s.last()));
        if s.last() == '"' {
            assert((front + two).take((front + two).len() - 2) =~= front);
            assert((front + two).last() == '"');
        } else {
            assert(front.push(s.last()).drop_last() =~= front);
        }
    }
}

/// Reading a field gives the text that was written, whatever it holds.
pub proof fn field_reads_back(s: Seq<char>)
    ensures
        csv_value(csv_field(s)) == s,
{
    reveal_strlit("\"");
    if is_special(s) {
        let inner = replaced(s, '"', "\"\""@);
        lemma_undoubled(s);
        assert(csv_field(s).subrange(1, csv_field(s).len() - 1) =~= inner);
    } else if s.len() > 0 {
        assert(!needs_quotes(s[0]));
    }
}

proof fn lemma_quotes_add(a: Seq<char>, b: Seq<char>)
    ensures
        quotes(a + b) == quotes(a) + quotes(b),
    decreases b.len(),
{
    if b.len() == 0 {
        assert(a + b =~= a);
    } else {
        lemma_quotes_add(a, b.drop_last());
        assert((a + b).drop_last() =~= a + b.drop_last());
    }
}

/// The commas of `s` have an even number of quotes before them if `even`, else an odd one.
spec fn commas_behind(s: Seq<char>, even: bool) -> bool {
    forall|k: int|
        0 <= k < s.len() && #[trigger] s[k] == ',' ==> (quotes(s.take(k)) % 2 == 0) == even
}

proof fn lemma_doubled_quotes(s: Seq<char>)
    ensures
        quotes(replaced(s, '"', "\"\""@)) % 2 == 0,
        commas_behind(replaced(s, '"', "\"\""@), true),
    decreases s.len(),
{
    reveal_strlit("\"\"");
    let two = "\"\""@;
    if s.len() > 0 {
        let front = replaced(s.drop_last(), '"', two);
        let whole = replaced(s, '"', two);
        lemma_doubled_quotes(s.drop_last());
        if s.last() == '"' {
            lemma_quotes_add(front, two);
            reveal_with_fuel(quotes, 3);
            assert(quotes(two) == 2);
        } else {
            assert(whole.drop_last() =~= front);
        }
        assert forall|k: int| 0 <= k < whole.len() && #[trigger] whole[k] == ',' implies quotes(
            whole.take(k),
        ) % 2 == 0 by {
            if k < front.len() {
                assert(front[k] == whole[k]);
                assert(whole.take(k) =~= front.take(k));
            } else {
                assert(whole.take(k) =~= front);
            }
        }
    }
}

proof fn lemma_no_quotes(s: Seq<char>)
    requires
        forall|i: int| 0 <= i < s.len() ==> #[trigger] s[i] != '"',
    ensures
        quotes(s) == 0,
    decreases s.len(),
{
    if s.len() > 0 {
        let front = s.drop_last();
        assert forall|i: int| 0 <= i < front.len() implies #[trigger] front[i] != '"' by {
            assert(front[i] == s[i]);
        }
        lemma_no_quotes(front);
    }
}

/// Every comma of a field stands in quotes, and the quotes come in pairs.
proof fn lemma_field_quotes(s: Seq<char>)
    ensures
        quotes(csv_field(s)) % 2 == 0,
        commas_behind(csv_field(s), false),
{
    reveal_strlit("\"");
    let field = csv_field(s);
    if is_special(s) {
        let one = "\""@;
        let inner = replaced(s, '"', "\"\""@);
        lemma_doubled_quotes(s);
        lemma_quotes_add(one, inner);
        lemma_quotes_add(one + inner, one);
        reveal_with_fuel(quotes, 2);
        assert(quotes(one) == 1);
        assert forall|k: int| 0 <= k < field.len() && #[trigger] field[k] == ',' implies quotes(
            field.take(k),
        ) % 2 == 1 by {
            assert(inner[k - 1] == field[k]);
            assert(field.take(k) =~= one + inner.take(k - 1));
            lemma_quotes_add(one, inner.take(k - 1));
        }
    } else {
        assert forall|i: int| 0 <= i < s.len() implies #[trigger] s[i] != '"' && s[i] != ',' by {
            assert(!needs_quotes(s[i]));
        }
        lemma_no_quotes(s);
    }
}

/// A field behind a row goes into its last piece.
proof fn lemma_field_in_piece(row: Seq<char>, field: Seq<char>)
    requires
        quotes(row) % 2 == 0,
        commas_behind(field, false),
    ensures
        row_pieces(row).len() > 0,
        row_pieces(row + field) == row_pieces(row).drop_last().push(
            row_pieces(row).last() + field,
        ),
    decreases field.len(),
{
    lemma_has_pieces(row);
    let parts = row_pieces(row);
    if field.len() == 0 {
        assert(row + field =~= row);
        assert(parts.last() + field =~= parts.last());
        assert(parts =~= parts.drop_last().push(parts.last()));
    } else {
        let front = field.drop_last();
        assert forall|k: int| 0 <= k < front.len() && #[trigger] front[k] == ',' implies quotes(
            front.take(k),
        ) % 2 != 0 by {
            assert(field[k] == front[k]);
            assert(front.take(k) =~= field.take(k));
        }
        lemma_field_in_piece(row, front);
        lemma_quotes_add(row, front);
        assert((row + field).drop_last() =~= row + front);
        if field.last() == ',' {
            assert(field[field.len() - 1] == ',');
            assert(field.take(field.len() - 1) =~= front);
        }
        let before = parts.drop_last().push(parts.last() + front);
        assert(before.drop_last() =~= parts.drop_last());
        assert((parts.last() + front).push(field.last()) =~= parts.last() + field);
    }
}

proof fn lemma_has_pieces(row: Seq<char>)
    ensures
        row_pieces(row).len() > 0,
    decreases row.len(),
{
    if row.len() > 0 {
        lemma_has_pieces(row.drop_last());
    }
}

/// A field behind a separator is a piece of its own.
proof fn lemma_next_field(row: Seq<char>, field: Seq<char>)
    requires
        quotes(row) % 2 == 0,
        quotes(field) % 2 == 0,
        commas_behind(field, false),
    ensures
        quotes(row + ", "@ + field) % 2 == 0,
        row_pieces(row + ", "@ + field) == row_pieces(row).push(seq![' '] + field),
{
    reveal_strlit(", ");
    let parts = row_pieces(row);
    let comma = row.push(',');
    let gap = comma.push(' ');
    assert(comma.drop_last() =~= row);
    assert(gap.drop_last() =~= comma);
    assert(row + ", "@ + field =~= gap + field);
    assert(quotes(comma) == quotes(row));
    assert(quotes(gap) == quotes(row));
    assert(row_pieces(comma) == parts.push(Seq::empty()));
    assert(parts.push(Seq::<char>::empty()).drop_last() =~= parts);
    assert(row_pieces(gap) == parts.push(Seq::<char>::empty().push(' ')));
    lemma_field_in_piece(gap, field);
    lemma_quotes_add(gap, field);
    assert(row_pieces(gap).drop_last() =~= parts);
    assert(Seq::<char>::empty().push(' ') + field =~= seq![' '] + field);
}

/// The fields of the texts.
pub open spec fn csv_row_fields(values: Seq<Seq<char>>) -> Seq<Seq<char>> {
    Seq::new(values.len(), |i: int| csv_field(values[i]))
}

proof fn lemma_row(values: Seq<Seq<char>>)
    requires
        values.len() > 0,
    ensures
        ({
            let row = joined(csv_row_fields(values), ", "@);
            &&& quotes(row) % 2 == 0
            &&& row_pieces(row).len() == values.len()
            &&& row_pieces(row)[0] == csv_field(values[0])
            &&& forall|i: int|
                0 < i < values.len() ==> #[trigger] row_pieces(row)[i] == seq![' '] + csv_field(
                    values[i],
                )
        }),
    decreases values.len(),
{
    let fields = csv_row_fields(values);
    let field = csv_field(values.last());
    let row = joined(fields, ", "@);
    lemma_field_quotes(values.last());
    if values.len() == 1 {
        let none = Seq::<char>::empty();
        lemma_field_in_piece(none, field);
        assert(none + field =~= field);
        assert(row == field);
        assert(row_pieces(none).last() + field =~= field);
    } else {
        let front = joined(csv_row_fields(values.drop_last()), ", "@);
        let parts = row_pieces(front);
        lemma_row(values.drop_last());
        assert(fields.drop_last() =~= csv_row_fields(values.drop_last()));
        assert(row == front + ", "@ + field);
        lemma_next_field(front, field);
        assert forall|i: int| 0 < i < values.len() implies #[trigger] row_pieces(row)[i] == seq![
            ' ',
        ] + csv_field(values[i]) by {
            if i < values.len() - 1 {
                assert(parts[i] == seq![' '] + csv_field(values.drop_last()[i]));
            }
        }
        assert(values.drop_last()[0] == values[0]);
    }
}

/// Reading a row gives the texts that were written, whatever they hold.
pub proof fn row_reads_back(values: Seq<Seq<char>>)
    requires
        values.len() > 0,
    ensures
        csv_values(joined(csv_row_fields(values), ", "@)) == values,
{
    let row = joined(csv_row_fields(values), ", "@);
    lemma_row(values);
    assert forall|i: int| 0 <= i < values.len() implies csv_values(row)[i] == values[i] by {
        field_reads_back(values[i]);
        if i > 0 {
            assert(row_pieces(row)[i].skip(1) =~= csv_field(values[i]));
        }
    }
    assert(csv_values(row) =~= values);
}

/// A field stays as it is exactly if it holds no comma, no quote, no line feed and no carriage
/// return; else it stands in quotes.
pub proof fn fields_are_quoted_if_they_need_it(s: Seq<char>)
    ensures
        (forall|i: int|
            0 <= i < s.len() ==> #[trigger] s[i] != ',' && s[i] != '"' && s[i] != '\n' && s[i]
                != '\r') ==> csv_field(s) == s,
        (exists|i: int|
            0 <= i < s.len() && (#[trigger] s[i] == ',' || s[i] == '"' || s[i] == '\n' || s[i]
                == '\r')) ==> csv_field(s).len() >= s.len() + 2 && csv_field(s)[0] == '"'
            && csv_field(s).last() == '"',
{
    reveal_strlit("\"");
    reveal_strlit("\"\"");
    if exists|i: int|
        0 <= i < s.len() && (#[trigger] s[i] == ',' || s[i] == '"' || s[i] == '\n' || s[i] == '\r') {
        let k = choose|i: int|
            0 <= i < s.len() && (#[trigger] s[i] == ',' || s[i] == '"' || s[i] == '\n' || s[i]
                == '\r');
        assert(needs_quotes(s[k]));
        lemma_replaced_is_longer(s);
    }
}

proof fn lemma_replaced_is_longer(s: Seq<char>)
    ensures
        replaced(s, '"', "\"\""@).len() >= s.len(),
    decreases s.len(),
{
    reveal_strlit("\"\"");
    if s.len() > 0 {
        lemma_replaced_is_longer(s.drop_last());
    }
}

} // verus!
