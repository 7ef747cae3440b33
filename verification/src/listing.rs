//! Programs as text: the listing of a program, and a plain dump of the
//! records of an image.

use crate::image::{
    byte_array_to_opt_str, field_text, opcode_name, opcode_text, record_views, Record, RecordView,
};
use crate::opcode::{Code, Opt};
use crate::text::{
    decimal, padded_left, padded_right, push_blanks, push_char, push_decimal, push_signed,
    signed_decimal,
};
use vstd::prelude::*;
use vstd::string::*;

verus! {

/// What every line of the listing holds: a space, the index of the
/// instruction flushed right in 3 columns, a space, and the name of the
/// opcode flushed left in 5 columns.
pub open spec fn line_head(index: nat, opt: Opt) -> Seq<char> {
    seq![' '] + padded_left(decimal(index), 3) + seq![' '] + padded_right(opcode_name(opt), 5)
}

/// The operand column: a space and the operand flushed left in 3 columns.
pub open spec fn operand_column(operand: i32) -> Seq<char> {
    seq![' '] + padded_right(signed_decimal(operand as int), 3)
}

/// The line of the listing for the instruction at `index`: the head, and
/// the operand column where the operand means something.
pub open spec fn listing_line(index: nat, c: Code) -> Seq<char> {
    if c.opt.carries_operand() {
        line_head(index, c.opt) + operand_column(c.operand)
    } else {
        line_head(index, c.opt)
    }
}

/// The listing of a program: the lines of its instructions, each ended by a
/// line feed.
pub open spec fn listing(codes: Seq<Code>) -> Seq<char>
    decreases codes.len(),
{
    if codes.len() == 0 {
        Seq::empty()
    } else {
        listing(codes.drop_last()) + listing_line((codes.len() - 1) as nat, codes.last()) + seq![
            '\n',
        ]
    }
}

/// A line of the listing is longer than its head exactly where the opcode
/// is one of `LOAD LOADI STO BR BRF CAL ENTER`: those instructions, and no
/// others, print an operand column.
pub proof fn lemma_operand_column(index: nat, c: Code)
    ensures
        listing_line(index, c).len() > line_head(index, c.opt).len() <==> (c.opt == Opt::LOAD
            || c.opt == Opt::LOADI || c.opt == Opt::STO || c.opt == Opt::BR || c.opt == Opt::BRF
            || c.opt == Opt::CAL || c.opt == Opt::ENTER),
        c.opt.carries_operand() ==> listing_line(index, c) == line_head(index, c.opt)
            + operand_column(c.operand),
        !c.opt.carries_operand() ==> listing_line(index, c) == line_head(index, c.opt),
{
}

/// Appends `text` flushed left in `width` columns.
fn push_flushed_left(s: &mut String, text: &str, width: usize)
    ensures
        final(s)@ == old(s)@ + padded_right(text@, width as nat),
{
    s.append(text);
    let n = text.unicode_len();
    if n < width {
        push_blanks(s, width - n);
    } else {
        push_blanks(s, 0);
    }
    assert(final(s)@ =~= old(s)@ + padded_right(text@, width as nat));
}

/// Appends the line of the listing for the instruction at `index`.
pub fn push_listing_line(s: &mut String, index: usize, c: Code)
    ensures
        final(s)@ == old(s)@ + listing_line(index as nat, c),
{
    let mut number = String::new();
    push_decimal(&mut number, index as u64);
    push_char(s, ' ');
    let n = number.as_str().unicode_len();
    if n < 3 {
        push_blanks(s, 3 - n);
    } else {
        push_blanks(s, 0);
    }
    s.append(number.as_str());
    push_char(s, ' ');
    push_flushed_left(s, opcode_text(c.opt), 5);
    assert(s@ =~= old(s)@ + line_head(index as nat, c.opt));
    if c.opt.has_operand() {
        let mut operand = String::new();
        push_signed(&mut operand, c.operand);
        push_char(s, ' ');
        push_flushed_left(s, operand.as_str(), 3);
        assert(s@ =~= old(s)@ + listing_line(index as nat, c));
    }
}

/// The listing of a program.
pub fn format_listing(codes: &[Code]) -> (s: String)
    ensures
        s@ == listing(codes@),
{
    let mut s = String::new();
    let mut i: usize = 0;
    while i < codes.len()
        invariant
            i <= codes.len(),
            s@ == listing(codes@.take(i as int)),
        decreases codes.len() - i,
    {
        let ghost before = s@;
        push_listing_line(&mut s, i, codes[i]);
        push_char(&mut s, '\n');
        i += 1;
        proof {
            let front = codes@.take(i as int);
            assert(front.drop_last() =~= codes@.take(i - 1));
            assert(front.last() == codes@[i - 1]);
            assert(s@ =~= before + listing_line((i - 1) as nat, codes@[i - 1]) + seq!['\n']);
        }
    }
    assert(codes@.take(codes.len() as int) =~= codes@);
    s
}

/// The line of the dump for the record at `index`: the text of its opcode
/// field as it stands, whether it names an opcode or not, and its operand.
pub open spec fn display_line(index: nat, r: RecordView) -> Seq<char> {
    "Code "@ + decimal(index) + ": opt = "@ + field_text(r.field) + ", operand = "@
        + signed_decimal(r.operand as int)
}

/// The dump of the records of an image: for each record its index, the text
/// of its opcode field and its operand, each line ended by a line feed.
pub open spec fn display(records: Seq<RecordView>) -> Seq<char>
    decreases records.len(),
{
    if records.len() == 0 {
        Seq::empty()
    } else {
        display(records.drop_last()) + display_line(
            (records.len() - 1) as nat,
            records.last(),
        ) + seq!['\n']
    }
}

/// Dumps the records of an image as text.
pub fn display_codes(codes: &[Record]) -> (s: String)
    ensures
        s@ == display(record_views(codes@)),
{
    let mut s = String::new();
    let mut i: usize = 0;
    while i < codes.len()
        invariant
            i <= codes.len(),
            s@ == display(record_views(codes@).take(i as int)),
        decreases codes.len() - i,
    {
        let ghost before = s@;
        let name = byte_array_to_opt_str(&codes[i].opt);
        s.append("Code ");
        push_decimal(&mut s, i as u64);
        s.append(": opt = ");
        s.append(name.as_str());
        s.append(", operand = ");
        push_signed(&mut s, codes[i].operand);
        push_char(&mut s, '\n');
        i += 1;
        proof {
            let front = record_views(codes@).take(i as int);
            assert(front.drop_last() =~= record_views(codes@).take(i - 1));
            assert(front.last() == codes@[i - 1]@);
            assert(s@ =~= before + display_line((i - 1) as nat, codes@[i - 1]@) + seq!['\n']);
        }
    }
    assert(record_views(codes@).take(codes.len() as int) =~= record_views(codes@));
    s
}

} // verus!
