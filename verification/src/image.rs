//! The binary image of a program: one record of fixed width for each
//! instruction, nothing before the first and nothing behind the last.
//!
//! A record holds the name of the opcode, padded with zero bytes to 10
//! bytes, and then the operand in 4 bytes, in the byte order that the caller
//! names. An image is read record by record, whatever the records hold: a
//! record whose field names no opcode is a [`Record`] like any other, and
//! the machine faults when it comes to run it.

use crate::opcode::{Code, Opt};
use crate::text::{append_bytes, push_char};
use vstd::hash_map::StringHashMap;
use vstd::prelude::*;
use vstd::string::*;

verus! {

/// Width of the opcode field of a record.
pub const NAME_SIZE: usize = 10;

/// Width of a record.
pub const RECORD_SIZE: usize = 14;

/// The order of the four bytes of an operand.
#[derive(Debug, Clone, Copy, PartialEq, Eq, Structural)]
pub enum ByteOrder {
    /// Least significant byte first.
    LittleEndian,
    /// Most significant byte first.
    BigEndian,
}

/// Why an image was rejected.
#[derive(Debug, Clone, Copy, PartialEq, Eq, Structural)]
pub enum ImageError {
    /// The length is no multiple of the record size.
    Truncated,
}

/// One record of an image: the opcode field as it stands in the image, and
/// the operand. The field may hold the name of no opcode; the machine finds
/// that out when it comes to run the record.
#[derive(Debug, Clone, Copy, PartialEq, Eq)]
pub struct Record {
    pub opt: [u8; 10],
    pub operand: i32,
}

/// A record as a mathematical value.
pub struct RecordView {
    pub field: Seq<u8>,
    pub operand: i32,
}

impl View for Record {
    type V = RecordView;

    open spec fn view(&self) -> RecordView {
        RecordView { field: self.opt@, operand: self.operand }
    }
}

/// Records as a sequence of mathematical values.
pub open spec fn record_views(records: Seq<Record>) -> Seq<RecordView> {
    records.map_values(|r: Record| r@)
}

/// The name of an opcode.
pub open spec fn opcode_name(opt: Opt) -> Seq<char> {
    match opt {
        Opt::LOAD => "LOAD"@,
        Opt::LOADI => "LOADI"@,
        Opt::STO => "STO"@,
        Opt::STI => "STI"@,
        Opt::ADD => "ADD"@,
        Opt::SUB => "SUB"@,
        Opt::MULT => "MULT"@,
        Opt::DIV => "DIV"@,
        Opt::BR => "BR"@,
        Opt::BRF => "BRF"@,
        Opt::EQ => "EQ"@,
        Opt::NOTEQ => "NOTEQ"@,
        Opt::GT => "GT"@,
        Opt::LES => "LES"@,
        Opt::GE => "GE"@,
        Opt::LE => "LE"@,
        Opt::AND => "AND"@,
        Opt::OR => "OR"@,
        Opt::NOT => "NOT"@,
        Opt::IN => "IN"@,
        Opt::OUT => "OUT"@,
        Opt::RETURN => "RETURN"@,
        Opt::ENTER => "ENTER"@,
        Opt::CAL => "CAL"@,
        Opt::PAS => "PAS"@,
    }
}

/// The name of an opcode.
pub fn opcode_text(opt: Opt) -> (s: &'static str)
    ensures
        s@ == opcode_name(opt),
{
    match opt {
        Opt::LOAD => "LOAD",
        Opt::LOADI => "LOADI",
        Opt::STO => "STO",
        Opt::STI => "STI",
        Opt::ADD => "ADD",
        Opt::SUB => "SUB",
        Opt::MULT => "MULT",
        Opt::DIV => "DIV",
        Opt::BR => "BR",
        Opt::BRF => "BRF",
        Opt::EQ => "EQ",
        Opt::NOTEQ => "NOTEQ",
        Opt::GT => "GT",
        Opt::LES => "LES",
        Opt::GE => "GE",
        Opt::LE => "LE",
        Opt::AND => "AND",
        Opt::OR => "OR",
        Opt::NOT => "NOT",
        Opt::IN => "IN",
        Opt::OUT => "OUT",
        Opt::RETURN => "RETURN",
        Opt::ENTER => "ENTER",
        Opt::CAL => "CAL",
        Opt::PAS => "PAS",
    }
}

/// The opcode that has the name `s`.
pub open spec fn opcode_named(s: Seq<char>) -> Option<Opt> {
    if s == "PAS"@ {
        Some(Opt::PAS)
    } else if s == "CAL"@ {
        Some(Opt::CAL)
    } else if s == "ENTER"@ {
        Some(Opt::ENTER)
    } else if s == "RETURN"@ {
        Some(Opt::RETURN)
    } else if s == "OUT"@ {
        Some(Opt::OUT)
    } else if s == "IN"@ {
        Some(Opt::IN)
    } else if s == "NOT"@ {
        Some(Opt::NOT)
    } else if s == "OR"@ {
        Some(Opt::OR)
    } else if s == "AND"@ {
        Some(Opt::AND)
    } else if s == "LE"@ {
        Some(Opt::LE)
    } else if s == "GE"@ {
        Some(Opt::GE)
    } else if s == "LES"@ {
        Some(Opt::LES)
    } else if s == "GT"@ {
        Some(Opt::GT)
    } else if s == "NOTEQ"@ {
        Some(Opt::NOTEQ)
    } else if s == "EQ"@ {
        Some(Opt::EQ)
    } else if s == "BRF"@ {
        Some(Opt::BRF)
    } else if s == "BR"@ {
        Some(Opt::BR)
    } else if s == "DIV"@ {
        Some(Opt::DIV)
    } else if s == "MULT"@ {
        Some(Opt::MULT)
    } else if s == "SUB"@ {
        Some(Opt::SUB)
    } else if s == "ADD"@ {
        Some(Opt::ADD)
    } else if s == "STI"@ {
        Some(Opt::STI)
    } else if s == "STO"@ {
        Some(Opt::STO)
    } else if s == "LOADI"@ {
        Some(Opt::LOADI)
    } else if s == "LOAD"@ {
        Some(Opt::LOAD)
    } else {
        None
    }
}

/// The table that maps the name of each opcode to the opcode.
pub open spec fn opcode_table() -> Map<Seq<char>, Opt> {
    Map::new(|s: Seq<char>| opcode_named(s) is Some, |s: Seq<char>| opcode_named(s)->Some_0)
}

/// The name of an opcode is a string of 2 to 6 ASCII characters, none of
/// them the zero character.
pub proof fn lemma_opcode_name(opt: Opt)
    ensures
        2 <= opcode_name(opt).len() <= 6,
        forall|i: int|
            #![trigger opcode_name(opt)[i]]
            0 <= i < opcode_name(opt).len() ==> {
                &&& 0 < (opcode_name(opt)[i] as u8) < 128
                &&& ((opcode_name(opt)[i] as u8) as char) == opcode_name(opt)[i]
                &&& opcode_name(opt)[i] <= '\u{7f}'
            },
{
    reveal_strlit("LOAD");
    reveal_strlit("LOADI");
    reveal_strlit("STO");
    reveal_strlit("STI");
    reveal_strlit("ADD");
    reveal_strlit("SUB");
    reveal_strlit("MULT");
    reveal_strlit("DIV");
    reveal_strlit("BR");
    reveal_strlit("BRF");
    reveal_strlit("EQ");
    reveal_strlit("NOTEQ");
    reveal_strlit("GT");
    reveal_strlit("LES");
    reveal_strlit("GE");
    reveal_strlit("LE");
    reveal_strlit("AND");
    reveal_strlit("OR");
    reveal_strlit("NOT");
    reveal_strlit("IN");
    reveal_strlit("OUT");
    reveal_strlit("RETURN");
    reveal_strlit("ENTER");
    reveal_strlit("CAL");
    reveal_strlit("PAS");
}

/// The table maps the name of every opcode to that opcode.
pub proof fn lemma_opcode_table(opt: Opt)
    ensures
        opcode_named(opcode_name(opt)) == Some(opt),
        opcode_table().contains_key(opcode_name(opt)),
        opcode_table()[opcode_name(opt)] == opt,
{
    reveal_strlit("LOAD");
    reveal_strlit("LOADI");
    reveal_strlit("STO");
    reveal_strlit("STI");
    reveal_strlit("ADD");
    reveal_strlit("SUB");
    reveal_strlit("MULT");
    reveal_strlit("DIV");
    reveal_strlit("BR");
    reveal_strlit("BRF");
    reveal_strlit("EQ");
    reveal_strlit("NOTEQ");
    reveal_strlit("GT");
    reveal_strlit("LES");
    reveal_strlit("GE");
    reveal_strlit("LE");
    reveal_strlit("AND");
    reveal_strlit("OR");
    reveal_strlit("NOT");
    reveal_strlit("IN");
    reveal_strlit("OUT");
    reveal_strlit("RETURN");
    reveal_strlit("ENTER");
    reveal_strlit("CAL");
    reveal_strlit("PAS");
    assert("LOAD"@.len() == 4 && "LOAD"@[0] == 'L' && "LOAD"@[1] == 'O' && "LOAD"@[2] == 'A');
    assert("LOADI"@.len() == 5 && "LOADI"@[0] == 'L' && "LOADI"@[1] == 'O' && "LOADI"@[2] == 'A');
    assert("STO"@.len() == 3 && "STO"@[0] == 'S' && "STO"@[1] == 'T' && "STO"@[2] == 'O');
    assert("STI"@.len() == 3 && "STI"@[0] == 'S' && "STI"@[1] == 'T' && "STI"@[2] == 'I');
    assert("ADD"@.len() == 3 && "ADD"@[0] == 'A' && "ADD"@[1] == 'D' && "ADD"@[2] == 'D');
    assert("SUB"@.len() == 3 && "SUB"@[0] == 'S' && "SUB"@[1] == 'U' && "SUB"@[2] == 'B');
    assert("MULT"@.len() == 4 && "MULT"@[0] == 'M' && "MULT"@[1] == 'U' && "MULT"@[2] == 'L');
    assert("DIV"@.len() == 3 && "DIV"@[0] == 'D' && "DIV"@[1] == 'I' && "DIV"@[2] == 'V');
    assert("BR"@.len() == 2 && "BR"@[0] == 'B' && "BR"@[1] == 'R');
    assert("BRF"@.len() == 3 && "BRF"@[0] == 'B' && "BRF"@[1] == 'R' && "BRF"@[2] == 'F');
    assert("EQ"@.len() == 2 && "EQ"@[0] == 'E' && "EQ"@[1] == 'Q');
    assert("NOTEQ"@.len() == 5 && "NOTEQ"@[0] == 'N' && "NOTEQ"@[1] == 'O' && "NOTEQ"@[2] == 'T');
    assert("GT"@.len() == 2 && "GT"@[0] == 'G' && "GT"@[1] == 'T');
    assert("LES"@.len() == 3 && "LES"@[0] == 'L' && "LES"@[1] == 'E' && "LES"@[2] == 'S');
    assert("GE"@.len() == 2 && "GE"@[0] == 'G' && "GE"@[1] == 'E');
    assert("LE"@.len() == 2 && "LE"@[0] == 'L' && "LE"@[1] == 'E');
    assert("AND"@.len() == 3 && "AND"@[0] == 'A' && "AND"@[1] == 'N' && "AND"@[2] == 'D');
    assert("OR"@.len() == 2 && "OR"@[0] == 'O' && "OR"@[1] == 'R');
    assert("NOT"@.len() == 3 && "NOT"@[0] == 'N' && "NOT"@[1] == 'O' && "NOT"@[2] == 'T');
    assert("IN"@.len() == 2 && "IN"@[0] == 'I' && "IN"@[1] == 'N');
    assert("OUT"@.len() == 3 && "OUT"@[0] == 'O' && "OUT"@[1] == 'U' && "OUT"@[2] == 'T');
    assert("RETURN"@.len() == 6 && "RETURN"@[0] == 'R' && "RETURN"@[1] == 'E' && "RETURN"@[2] == 'T');
    assert("ENTER"@.len() == 5 && "ENTER"@[0] == 'E' && "ENTER"@[1] == 'N' && "ENTER"@[2] == 'T');
    assert("CAL"@.len() == 3 && "CAL"@[0] == 'C' && "CAL"@[1] == 'A' && "CAL"@[2] == 'L');
    assert("PAS"@.len() == 3 && "PAS"@[0] == 'P' && "PAS"@[1] == 'A' && "PAS"@[2] == 'S');
}

/// The table holds no name but the names of the opcodes.
pub proof fn lemma_opcode_table_names(s: Seq<char>)
    requires
        opcode_table().contains_key(s),
    ensures
        opcode_name(opcode_table()[s]) == s,
{
}

/// The table of opcode names.
pub fn init_map() -> (map: StringHashMap<Opt>)
    ensures
        map@ == opcode_table(),
{
    let mut map = StringHashMap::new();
    map.insert("LOAD".to_string(), Opt::LOAD);
    map.insert("LOADI".to_string(), Opt::LOADI);
    map.insert("STO".to_string(), Opt::STO);
    map.insert("STI".to_string(), Opt::STI);
    map.insert("ADD".to_string(), Opt::ADD);
    map.insert("SUB".to_string(), Opt::SUB);
    map.insert("MULT".to_string(), Opt::MULT);
    map.insert("DIV".to_string(), Opt::DIV);
    map.insert("BR".to_string(), Opt::BR);
    map.insert("BRF".to_string(), Opt::BRF);
    map.insert("EQ".to_string(), Opt::EQ);
    map.insert("NOTEQ".to_string(), Opt::NOTEQ);
    map.insert("GT".to_string(), Opt::GT);
    map.insert("LES".to_string(), Opt::LES);
    map.insert("GE".to_string(), Opt::GE);
    map.insert("LE".to_string(), Opt::LE);
    map.insert("AND".to_string(), Opt::AND);
    map.insert("OR".to_string(), Opt::OR);
    map.insert("NOT".to_string(), Opt::NOT);
    map.insert("IN".to_string(), Opt::IN);
    map.insert("OUT".to_string(), Opt::OUT);
    map.insert("RETURN".to_string(), Opt::RETURN);
    map.insert("ENTER".to_string(), Opt::ENTER);
    map.insert("CAL".to_string(), Opt::CAL);
    map.insert("PAS".to_string(), Opt::PAS);
    assert(map@ =~= opcode_table());
    map
}

/// The bytes of the name of an opcode.
pub open spec fn name_bytes(opt: Opt) -> Seq<u8> {
    opcode_name(opt).map_values(|c: char| c as u8)
}

/// The bytes of the name of an opcode.
pub fn opcode_bytes(opt: Opt) -> (v: Vec<u8>)
    ensures
        v@ == name_bytes(opt),
        2 <= v.len() <= 6,
{
    let s = opcode_text(opt);
    proof {
        lemma_opcode_name(opt);
        assert forall|i: int| 0 <= i < s@.len() implies '\0' <= #[trigger] s@[i] <= '\u{7f}' by {
            assert(opcode_name(opt)[i] <= '\u{7f}');
        }
        assert(is_ascii(s));
        is_ascii_spec_bytes(s);
    }
    let v = s.as_bytes_vec();
    assert(v@ =~= name_bytes(opt));
    v
}

/// The number of bytes of `field` before its first zero byte.
pub open spec fn text_len(field: Seq<u8>) -> nat
    decreases field.len(),
{
    if field.len() == 0 || field[0] == 0 {
        0
    } else {
        1 + text_len(field.drop_first())
    }
}

/// The text of an opcode field: its bytes up to the first zero byte, each
/// taken as a character.
pub open spec fn field_text(field: Seq<u8>) -> Seq<char> {
    field.take(text_len(field) as int).map_values(|b: u8| b as char)
}

/// The text of a field ends at its first zero byte: where the first `k`
/// bytes are not zero the text holds at least these, and exactly these where
/// byte `k` is zero or the field ends there.
proof fn lemma_text_len(field: Seq<u8>, k: int)
    requires
        0 <= k <= field.len(),
        forall|j: int| 0 <= j < k ==> field[j] != 0,
    ensures
        text_len(field) <= field.len(),
        text_len(field) >= k,
        k < field.len() && field[k] == 0 ==> text_len(field) == k,
        k == field.len() ==> text_len(field) == k,
    decreases field.len(),
{
    if field.len() == 0 || field[0] == 0 {
    } else {
        let rest = field.drop_first();
        if k == 0 {
            lemma_text_len(rest, 0);
        } else {
            assert forall|j: int| 0 <= j < k - 1 implies rest[j] != 0 by {
                assert(rest[j] == field[j + 1]);
            }
            lemma_text_len(rest, k - 1);
        }
    }
}

/// The text of an opcode field.
pub fn byte_array_to_opt_str(opt: &[u8; 10]) -> (s: String)
    ensures
        s@ == field_text(opt@),
{
    let mut s = String::new();
    let mut i: usize = 0;
    while i < 10 && opt[i] != 0
        invariant
            i <= 10,
            opt@.len() == 10,
            forall|j: int| 0 <= j < i ==> opt@[j] != 0,
            s@ == opt@.take(i as int).map_values(|b: u8| b as char),
        decreases 10 - i,
    {
        push_char(&mut s, opt[i] as char);
        i += 1;
        assert(s@ =~= opt@.take(i as int).map_values(|b: u8| b as char));
    }
    proof {
        lemma_text_len(opt@, i as int);
    }
    s
}

/// The opcode field of a record: the name, then zero bytes up to the width
/// of the field.
pub open spec fn name_field(opt: Opt) -> Seq<u8> {
    name_bytes(opt) + Seq::new((NAME_SIZE - name_bytes(opt).len()) as nat, |i: int| 0u8)
}

/// The value of a 32-bit integer read as unsigned.
pub open spec fn unsigned(x: i32) -> int {
    if x >= 0 {
        x as int
    } else {
        x + 0x1_0000_0000
    }
}

/// The 32-bit integer whose unsigned reading is `u`.
pub open spec fn signed(u: int) -> i32 {
    if u >= 0x8000_0000 {
        (u - 0x1_0000_0000) as i32
    } else {
        u as i32
    }
}

/// The four bytes of an operand.
pub open spec fn operand_bytes(x: i32, order: ByteOrder) -> Seq<u8> {
    let u = unsigned(x);
    let b0 = (u % 256) as u8;
    let b1 = (u / 256 % 256) as u8;
    let b2 = (u / 256 / 256 % 256) as u8;
    let b3 = (u / 256 / 256 / 256 % 256) as u8;
    match order {
        ByteOrder::LittleEndian => seq![b0, b1, b2, b3],
        ByteOrder::BigEndian => seq![b3, b2, b1, b0],
    }
}

/// The number that four bytes denote, the first of them the least
/// significant.
pub open spec fn bytes_value(b0: u8, b1: u8, b2: u8, b3: u8) -> int {
    b0 + 256 * (b1 + 256 * (b2 + 256 * b3))
}

/// The operand that four bytes hold.
pub open spec fn operand_value(b: Seq<u8>, order: ByteOrder) -> i32 {
    match order {
        ByteOrder::LittleEndian => signed(bytes_value(b[0], b[1], b[2], b[3])),
        ByteOrder::BigEndian => signed(bytes_value(b[3], b[2], b[1], b[0])),
    }
}

/// The record of an instruction.
pub open spec fn record_of(c: Code, order: ByteOrder) -> Seq<u8> {
    name_field(c.opt) + operand_bytes(c.operand, order)
}

/// The image of a program: the records of its instructions in their order.
pub open spec fn image_of(codes: Seq<Code>, order: ByteOrder) -> Seq<u8>
    decreases codes.len(),
{
    if codes.len() == 0 {
        Seq::empty()
    } else {
        image_of(codes.drop_last(), order) + record_of(codes.last(), order)
    }
}

/// The instruction that a record holds under the table `names`: the opcode
/// that the text of its field names, with the operand of the record; none
/// where the table does not hold that text.
pub open spec fn decoded(names: Map<Seq<char>, Opt>, r: RecordView) -> Option<Code> {
    let name = field_text(r.field);
    if names.contains_key(name) {
        Some(Code { opt: names[name], operand: r.operand })
    } else {
        None
    }
}

/// The instructions that records hold, one for each record.
pub open spec fn decoded_all(names: Map<Seq<char>, Opt>, records: Seq<RecordView>) -> Seq<
    Option<Code>,
> {
    Seq::new(records.len(), |i: int| decoded(names, records[i]))
}

/// The record of an instruction as a value.
pub open spec fn record_view(c: Code) -> RecordView {
    RecordView { field: name_field(c.opt), operand: c.operand }
}

/// Record `i` of an image.
pub open spec fn record_at(bytes: Seq<u8>, i: int) -> Seq<u8> {
    bytes.subrange(RECORD_SIZE * i, RECORD_SIZE * i + RECORD_SIZE)
}

/// Record `i` of an image as a value: its first 10 bytes are the field, its
/// last 4 bytes hold the operand.
pub open spec fn record_in(bytes: Seq<u8>, i: int, order: ByteOrder) -> RecordView {
    RecordView {
        field: record_at(bytes, i).take(NAME_SIZE as int),
        operand: operand_value(
            record_at(bytes, i).subrange(NAME_SIZE as int, RECORD_SIZE as int),
            order,
        ),
    }
}

/// The records that an image holds, in their order. An image is read
/// exactly when its length is a multiple of the record size, whatever its
/// records hold.
pub open spec fn program_of(bytes: Seq<u8>, order: ByteOrder) -> Result<
    Seq<RecordView>,
    ImageError,
> {
    if bytes.len() % (RECORD_SIZE as nat) != 0 {
        Err(ImageError::Truncated)
    } else {
        Ok(Seq::new(bytes.len() / (RECORD_SIZE as nat), |i: int| record_in(bytes, i, order)))
    }
}

/// An operand read back from its four bytes is the operand.
pub proof fn lemma_operand_round_trip(x: i32, order: ByteOrder)
    ensures
        operand_bytes(x, order).len() == 4,
        operand_value(operand_bytes(x, order), order) == x,
{
    let u = unsigned(x);
    let q1 = u / 256;
    let q2 = q1 / 256;
    let q3 = q2 / 256;
    assert(u == 256 * q1 + u % 256);
    assert(q1 == 256 * q2 + q1 % 256);
    assert(q2 == 256 * q3 + q2 % 256);
    assert(0 <= q3 < 256);
    assert(q3 % 256 == q3);
    assert(bytes_value((u % 256) as u8, (q1 % 256) as u8, (q2 % 256) as u8, (q3 % 256) as u8)
        == u);
}

/// The opcode field of an opcode reads back as its name.
pub proof fn lemma_name_round_trip(opt: Opt)
    ensures
        name_field(opt).len() == NAME_SIZE,
        field_text(name_field(opt)) == opcode_name(opt),
{
    lemma_opcode_name(opt);
    let chars = opcode_name(opt);
    let name = name_bytes(opt);
    let field = name_field(opt);
    assert forall|j: int| 0 <= j < name.len() implies field[j] != 0 by {
        assert(field[j] == name[j]);
        assert(name[j] == chars[j] as u8);
    }
    lemma_text_len(field, name.len() as int);
    assert(field[name.len() as int] == 0);
    assert(field.take(name.len() as int) =~= name);
    assert forall|j: int| 0 <= j < name.len() implies (name[j] as char) == chars[j] by {
        assert(name[j] == chars[j] as u8);
    }
    assert(field_text(field) =~= chars);
}

/// The record of an instruction holds that instruction.
pub proof fn lemma_record_round_trip(c: Code, order: ByteOrder)
    ensures
        record_of(c, order).len() == RECORD_SIZE,
        record_in(record_of(c, order), 0, order) == record_view(c),
        decoded(opcode_table(), record_view(c)) == Some(c),
{
    lemma_name_round_trip(c.opt);
    lemma_operand_round_trip(c.operand, order);
    lemma_opcode_table(c.opt);
    let r = record_of(c, order);
    assert(record_at(r, 0) =~= r);
    assert(r.take(NAME_SIZE as int) =~= name_field(c.opt));
    assert(r.subrange(NAME_SIZE as int, RECORD_SIZE as int) =~= operand_bytes(c.operand, order));
}

/// The image of `n` instructions is `n` records long, and each record is the
/// record of its instruction.
pub proof fn lemma_image_records(codes: Seq<Code>, order: ByteOrder)
    ensures
        image_of(codes, order).len() == RECORD_SIZE * codes.len(),
        forall|i: int|
            0 <= i < codes.len() ==> #[trigger] record_at(image_of(codes, order), i) == record_of(
                codes[i],
                order,
            ),
    decreases codes.len(),
{
    if codes.len() == 0 {
    } else {
        let front = codes.drop_last();
        lemma_image_records(front, order);
        lemma_record_round_trip(codes.last(), order);
        let image = image_of(codes, order);
        assert forall|i: int| 0 <= i < codes.len() implies #[trigger] record_at(image, i)
            == record_of(codes[i], order) by {
            if i < front.len() {
                assert(record_at(image, i) =~= record_at(image_of(front, order), i));
                assert(front[i] == codes[i]);
            } else {
                assert(record_at(image, i) =~= record_of(codes.last(), order));
            }
        }
    }
}

/// Round trip. The image of a program reads back as the records of its
/// instructions, and each of these holds its instruction again: written and
/// read in one byte order, a program comes back as it was.
pub proof fn lemma_round_trip(codes: Seq<Code>, order: ByteOrder)
    ensures
        program_of(image_of(codes, order), order) == Ok::<Seq<RecordView>, ImageError>(
            codes.map_values(|c: Code| record_view(c)),
        ),
        decoded_all(opcode_table(), codes.map_values(|c: Code| record_view(c)))
            == codes.map_values(|c: Code| Some(c)),
{
    lemma_image_records(codes, order);
    let image = image_of(codes, order);
    assert(image.len() == 14 * codes.len());
    let records = codes.map_values(|c: Code| record_view(c));
    let read = program_of(image, order)->Ok_0;
    assert forall|i: int| 0 <= i < codes.len() implies read[i] == records[i] by {
        lemma_record_round_trip(codes[i], order);
        assert(record_at(image, i) == record_of(codes[i], order));
        assert(record_at(record_of(codes[i], order), 0) =~= record_of(codes[i], order));
    }
    assert(read =~= records);
    assert forall|i: int| 0 <= i < codes.len() implies decoded_all(opcode_table(), records)[i]
        == Some(codes[i]) by {
        lemma_record_round_trip(codes[i], order);
    }
    assert(decoded_all(opcode_table(), records) =~= codes.map_values(|c: Code| Some(c)));
}

/// The opcode field of a record.
pub fn opcode_field(opt: Opt) -> (field: [u8; 10])
    ensures
        field@ == name_field(opt),
{
    let name = opcode_bytes(opt);
    let mut field = [0u8;10];
    let mut i: usize = 0;
    while i < name.len()
        invariant
            i <= name.len() <= 6,
            name@ == name_bytes(opt),
            field@.len() == 10,
            forall|j: int| 0 <= j < i ==> field@[j] == name@[j],
            forall|j: int| i <= j < 10 ==> field@[j] == 0,
        decreases name.len() - i,
    {
        field[i] = name[i];
        i += 1;
    }
    assert(field@ =~= name_field(opt));
    field
}

/// The four bytes of an operand.
pub fn operand_to_bytes(x: i32, order: ByteOrder) -> (b: [u8; 4])
    ensures
        b@ == operand_bytes(x, order),
{
    let u: u32 = if x >= 0 {
        x as u32
    } else {
        (x as i64 + 0x1_0000_0000) as u32
    };
    let q1: u32 = u / 256;
    let q2: u32 = q1 / 256;
    let q3: u32 = q2 / 256;
    let b0: u8 = (u % 256) as u8;
    let b1: u8 = (q1 % 256) as u8;
    let b2: u8 = (q2 % 256) as u8;
    let b3: u8 = (q3 % 256) as u8;
    let b = match order {
        ByteOrder::LittleEndian => [b0, b1, b2, b3],
        ByteOrder::BigEndian => [b3, b2, b1, b0],
    };
    assert(b@ =~= operand_bytes(x, order));
    b
}

/// The operand that the four bytes from `at` on hold.
pub fn operand_from_bytes(bytes: &[u8], at: usize, order: ByteOrder) -> (x: i32)
    requires
        at + 4 <= bytes.len(),
    ensures
        x == operand_value(bytes@.subrange(at as int, at + 4), order),
{
    let b0: i64 = bytes[at] as i64;
    let b1: i64 = bytes[at + 1] as i64;
    let b2: i64 = bytes[at + 2] as i64;
    let b3: i64 = bytes[at + 3] as i64;
    let u: i64 = match order {
        ByteOrder::LittleEndian => b0 + 256 * (b1 + 256 * (b2 + 256 * b3)),
        ByteOrder::BigEndian => b3 + 256 * (b2 + 256 * (b1 + 256 * b0)),
    };
    if u >= 0x8000_0000 {
        (u - 0x1_0000_0000) as i32
    } else {
        u as i32
    }
}

/// Writes a program as an image.
pub fn write_codes(codes: &[Code], order: ByteOrder) -> (image: Vec<u8>)
    ensures
        image@ == image_of(codes@, order),
{
    let mut image: Vec<u8> = Vec::new();
    let mut i: usize = 0;
    while i < codes.len()
        invariant
            i <= codes.len(),
            image@ == image_of(codes@.take(i as int), order),
        decreases codes.len() - i,
    {
        let field = opcode_field(codes[i].opt);
        let operand = operand_to_bytes(codes[i].operand, order);
        let ghost before = image@;
        append_bytes(&mut image, field.as_slice());
        append_bytes(&mut image, operand.as_slice());
        i += 1;
        proof {
            let front = codes@.take(i as int);
            assert(front.drop_last() =~= codes@.take(i - 1));
            assert(front.last() == codes@[i - 1]);
            assert(image@ =~= before + record_of(codes@[i - 1], order));
        }
    }
    assert(codes@.take(codes.len() as int) =~= codes@);
    image
}

/// The record of an instruction.
pub fn to_record(c: Code) -> (r: Record)
    ensures
        r@ == record_view(c),
{
    Record { opt: opcode_field(c.opt), operand: c.operand }
}

/// The records of a program.
pub fn to_records(codes: &[Code]) -> (records: Vec<Record>)
    ensures
        record_views(records@) == codes@.map_values(|c: Code| record_view(c)),
{
    let mut records: Vec<Record> = Vec::new();
    let mut i: usize = 0;
    while i < codes.len()
        invariant
            i <= codes.len(),
            records.len() == i,
            forall|j: int| 0 <= j < i ==> (#[trigger] records@[j])@ == record_view(codes@[j]),
        decreases codes.len() - i,
    {
        records.push(to_record(codes[i]));
        i += 1;
    }
    assert(record_views(records@) =~= codes@.map_values(|c: Code| record_view(c)));
    records
}

impl Record {
    /// The instruction that the record holds under the table `names`, if
    /// its field names an opcode.
    pub fn decode(&self, names: &StringHashMap<Opt>) -> (c: Option<Code>)
        ensures
            c == decoded(names@, self@),
    {
        let name = byte_array_to_opt_str(&self.opt);
        match names.get(name.as_str()) {
            None => None,
            Some(opt) => Some(Code { opt: *opt, operand: self.operand }),
        }
    }
}

/// Reads the records that an image holds.
pub fn read_codes(bytes: &[u8], order: ByteOrder) -> (r: Result<Vec<Record>, ImageError>)
    ensures
        match program_of(bytes@, order) {
            Ok(records) => r is Ok && record_views(r->Ok_0@) == records,
            Err(e) => r == Err::<Vec<Record>, ImageError>(e),
        },
{
    if bytes.len() % RECORD_SIZE != 0 {
        return Err(ImageError::Truncated);
    }
    let count = bytes.len() / RECORD_SIZE;
    let mut records: Vec<Record> = Vec::new();
    let mut i: usize = 0;
    while i < count
        invariant
            i <= count,
            count == bytes@.len() / (RECORD_SIZE as nat),
            bytes@.len() % (RECORD_SIZE as nat) == 0,
            14 * count == bytes.len(),
            records.len() == i,
            forall|j: int| 0 <= j < i ==> (#[trigger] records@[j])@ == record_in(bytes@, j, order),
        decreases count - i,
    {
        let start = i * RECORD_SIZE;
        let mut field = [0u8;10];
        let mut k: usize = 0;
        while k < 10
            invariant
                k <= 10,
                start + RECORD_SIZE <= bytes.len(),
                field@.len() == 10,
                forall|j: int| 0 <= j < k ==> field@[j] == bytes@[start + j],
            decreases 10 - k,
        {
            field[k] = bytes[start + k];
            k += 1;
        }
        let ghost record = record_at(bytes@, i as int);
        assert(field@ =~= record.take(NAME_SIZE as int));
        let operand = operand_from_bytes(bytes, start + NAME_SIZE, order);
        assert(bytes@.subrange(start + NAME_SIZE, start + NAME_SIZE + 4) =~= record.subrange(
            NAME_SIZE as int,
            RECORD_SIZE as int,
        ));
        records.push(Record { opt: field, operand });
        i += 1;
    }
    assert(record_views(records@) =~= program_of(bytes@, order)->Ok_0);
    Ok(records)
}

} // verus!
