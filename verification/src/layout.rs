//! Laying passwords out in columns.

use vstd::prelude::*;
use vstd::string::{StrSliceExecFns, StringExecFns};
use vstd::utf8::encode_utf8;

verus! {

/// The number of columns for a table of `password_count` passwords: one to
/// four columns for up to 24 passwords, and beyond that the largest of five,
/// four, three and two that divides the count, or three where none does.
pub open spec fn columns_for(password_count: u32) -> usize {
    if 1 <= password_count <= 3 {
        1
    } else if 4 <= password_count <= 8 {
        2
    } else if 9 <= password_count <= 15 {
        3
    } else if 16 <= password_count <= 24 {
        4
    } else if password_count % 5 == 0 {
        5
    } else if password_count % 4 == 0 {
        4
    } else if password_count % 3 == 0 {
        3
    } else if password_count % 2 == 0 {
        2
    } else {
        3
    }
}

/// Chooses the number of columns for a table of `password_count` passwords.
pub fn column_count(password_count: u32) -> (columns: usize)
    ensures
        columns == columns_for(password_count),
{
    if 1 <= password_count && password_count <= 3 {
        1
    } else if 4 <= password_count && password_count <= 8 {
        2
    } else if 9 <= password_count && password_count <= 15 {
        3
    } else if 16 <= password_count && password_count <= 24 {
        4
    } else if password_count % 5 == 0 {
        5
    } else if password_count % 4 == 0 {
        4
    } else if password_count % 3 == 0 {
        3
    } else if password_count % 2 == 0 {
        2
    } else {
        3
    }
}

/// The length of `text` in bytes, as `str::len` gives it.
pub open spec fn byte_length(text: Seq<char>) -> usize {
    encode_utf8(text).len() as usize
}

/// The width of the columns: the length in bytes of the longest password, and
/// at least one.
pub open spec fn column_width(passwords: Seq<String>) -> usize
    decreases passwords.len(),
{
    if passwords.len() == 0 {
        1
    } else {
        let before = column_width(passwords.drop_last());
        let bytes = byte_length(passwords.last()@);
        if bytes > before {
            bytes
        } else {
            before
        }
    }
}

/// `text` followed by as many spaces as it takes to make `width` characters;
/// `text` itself where it is that long already.
pub open spec fn padded(text: Seq<char>, width: nat) -> Seq<char> {
    if text.len() >= width {
        text
    } else {
        text + Seq::new((width - text.len()) as nat, |i: int| ' ')
    }
}

/// What follows the `n`th password of a table, counted from one: a line break
/// where it completes a row, a space otherwise.
pub open spec fn separator(n: nat, columns: usize) -> char {
    if columns > 0 && n % (columns as nat) == 0 {
        '\n'
    } else {
        ' '
    }
}

/// The passwords as cells of a table, each padded to `width` and followed by
/// its separator.
pub open spec fn table_cells(passwords: Seq<String>, columns: usize, width: nat) -> Seq<char>
    decreases passwords.len(),
{
    if passwords.len() == 0 {
        Seq::empty()
    } else {
        table_cells(passwords.drop_last(), columns, width) + padded(passwords.last()@, width).push(
            separator(passwords.len(), columns),
        )
    }
}

/// The passwords one per line, as they are.
pub open spec fn plain_lines(passwords: Seq<String>) -> Seq<char>
    decreases passwords.len(),
{
    if passwords.len() == 0 {
        Seq::empty()
    } else {
        plain_lines(passwords.drop_last()) + passwords.last()@.push('\n')
    }
}

/// Whether the last row of the table is short of `columns` passwords.
pub open spec fn ends_mid_row(count: nat, columns: usize) -> bool {
    count > 0 && (columns == 0 || count % (columns as nat) != 0)
}

/// The text of the table. With one column it is the passwords one per line.
/// Otherwise each password is padded to the common width, passwords of one row
/// are parted by a space, each full row ends in a line break, and a last row
/// that is not full ends in a space and a line break.
pub open spec fn table_text(passwords: Seq<String>, columns: usize) -> Seq<char> {
    if columns == 1 {
        plain_lines(passwords)
    } else {
        let cells = table_cells(passwords, columns, column_width(passwords) as nat);
        if ends_mid_row(passwords.len(), columns) {
            cells.push('\n')
        } else {
            cells
        }
    }
}

/// Counting one further within rows of `k` either completes a row or moves one
/// place to the right.
proof fn lemma_next_in_row(i: nat, k: nat)
    requires
        k > 0,
    ensures
        (i + 1) % k == if i % k + 1 == k {
            0
        } else {
            i % k + 1
        },
{
    vstd::arithmetic::div_mod::lemma_fundamental_div_mod(i as int, k as int);
    let q = i as int / k as int;
    let r = i as int % k as int;
    if r + 1 == k as int {
        assert(i + 1 == k * (q + 1) + 0) by (nonlinear_arith)
            requires
                i == k * q + r,
                r + 1 == k,
        ;
        vstd::arithmetic::div_mod::lemma_fundamental_div_mod_converse(
            i as int + 1,
            k as int,
            q + 1,
            0,
        );
    } else {
        vstd::arithmetic::div_mod::lemma_fundamental_div_mod_converse(
            i as int + 1,
            k as int,
            q,
            r + 1,
        );
    }
}

/// Computes the width of the columns.
fn widest(passwords: &Vec<String>) -> (width: usize)
    ensures
        width == column_width(passwords@),
{
    let mut width: usize = 1;
    let mut i: usize = 0;
    proof {
        assert(passwords@.take(0) =~= Seq::<String>::empty());
    }
    while i < passwords.len()
        invariant
            i <= passwords@.len(),
            width == column_width(passwords@.take(i as int)),
        decreases passwords@.len() - i,
    {
        let bytes = passwords[i].as_str().len();
        proof {
            assert(passwords@.take(i + 1).drop_last() =~= passwords@.take(i as int));
        }
        if bytes > width {
            width = bytes;
        }
        i += 1;
    }
    proof {
        assert(passwords@.take(passwords@.len() as int) =~= passwords@);
    }
    width
}

/// Appends `cell`, then spaces up to `width` characters.
fn append_padded(text: &mut String, cell: &str, width: usize)
    ensures
        final(text)@ == old(text)@ + padded(cell@, width as nat),
{
    text.append(cell);
    let mut used = cell.unicode_len();
    while used < width
        invariant
            cell@.len() <= used,
            used <= width || used == cell@.len(),
            text@ == old(text)@ + cell@ + Seq::new((used - cell@.len()) as nat, |i: int| ' '),
        decreases width - used,
    {
        text.push(' ');
        used += 1;
        proof {
            assert(text@ =~= old(text)@ + cell@ + Seq::new(
                (used - cell@.len()) as nat,
                |i: int| ' ',
            ));
        }
    }
    proof {
        assert(text@ =~= old(text)@ + padded(cell@, width as nat));
    }
}

/// Lays the passwords out in `column_count` columns and returns the text of
/// the table, line breaks included.
pub fn format_columns(passwords: &Vec<String>, column_count: usize) -> (text: String)
    ensures
        text@ == table_text(passwords@, column_count),
{
    let mut text = String::new();
    let mut i: usize = 0;
    proof {
        assert(passwords@.take(0) =~= Seq::<String>::empty());
    }
    if column_count == 1 {
        while i < passwords.len()
            invariant
                i <= passwords@.len(),
                text@ == plain_lines(passwords@.take(i as int)),
            decreases passwords@.len() - i,
        {
            proof {
                assert(passwords@.take(i + 1).drop_last() =~= passwords@.take(i as int));
            }
            text.append(passwords[i].as_str());
            text.push('\n');
            i += 1;
        }
        proof {
            assert(passwords@.take(passwords@.len() as int) =~= passwords@);
        }
        return text;
    }
    let max_width = widest(passwords);
    let mut col: usize = 0;
    while i < passwords.len()
        invariant
            i <= passwords@.len(),
            column_count != 1,
            column_count == 0 ==> col == i,
            column_count > 0 ==> col == i % column_count,
            text@ == table_cells(passwords@.take(i as int), column_count, max_width as nat),
        decreases passwords@.len() - i,
    {
        proof {
            assert(passwords@.take(i + 1).drop_last() =~= passwords@.take(i as int));
            if column_count > 0 {
                lemma_next_in_row(i as nat, column_count as nat);
            }
        }
        append_padded(&mut text, passwords[i].as_str(), max_width);
        col += 1;
        if col == column_count {
            col = 0;
            text.push('\n');
        } else {
            text.push(' ');
        }
        i += 1;
    }
    proof {
        assert(passwords@.take(passwords@.len() as int) =~= passwords@);
    }
    if col != 0 {
        text.push('\n');
    }
    text
}

} // verus!
