//! What the constraint programs print: lines of decimal numerals
//! separated by blanks, one record to a line.

use crate::error::ProtocolError;
use crate::scalar::decimal_value;
use crate::scalar::is_decimal;
use crate::scalar::Scalar;
use vstd::prelude::*;

verus! {

/// The byte that ends a line.
pub const NEWLINE: u8 = 10;

/// Whether a byte separates the fields of a line: a space, a tab, a
/// vertical tab, a form feed or a carriage return.
pub open spec fn is_blank(b: u8) -> bool {
    b == 32 || b == 9 || b == 11 || b == 12 || b == 13
}

/// Reading `text` byte by byte: the lines that a newline has ended so far,
/// and the bytes of the line that is still open.
pub open spec fn line_scan(text: Seq<u8>) -> (Seq<Seq<u8>>, Seq<u8>)
    decreases text.len(),
{
    if text.len() == 0 {
        (Seq::empty(), Seq::empty())
    } else {
        let (done, current) = line_scan(text.drop_last());
        if text.last() == NEWLINE {
            (done.push(current), Seq::empty())
        } else {
            (done, current.push(text.last()))
        }
    }
}

/// The lines of a text. Each newline ends a line; what follows the last
/// newline is a line too unless it is empty.
pub open spec fn lines_of(text: Seq<u8>) -> Seq<Seq<u8>> {
    let (done, current) = line_scan(text);
    if current.len() > 0 {
        done.push(current)
    } else {
        done
    }
}

/// Reading a line byte by byte: the fields that a blank has ended so far,
/// and the bytes of the field that is still open.
pub open spec fn field_scan(line: Seq<u8>) -> (Seq<Seq<u8>>, Seq<u8>)
    decreases line.len(),
{
    if line.len() == 0 {
        (Seq::empty(), Seq::empty())
    } else {
        let (done, current) = field_scan(line.drop_last());
        if is_blank(line.last()) {
            if current.len() > 0 {
                (done.push(current), Seq::empty())
            } else {
                (done, current)
            }
        } else {
            (done, current.push(line.last()))
        }
    }
}

/// The fields of a line: the longest runs of bytes that are not blank.
pub open spec fn fields_of(line: Seq<u8>) -> Seq<Seq<u8>> {
    let (done, current) = field_scan(line);
    if current.len() > 0 {
        done.push(current)
    } else {
        done
    }
}

/// The record that a line holds: the numbers that its first `arity` fields
/// spell. There is none where the line has fewer fields or one of these is
/// no decimal numeral. Fields beyond the first `arity` are not read.
pub open spec fn record_of(line: Seq<u8>, arity: nat) -> Option<Seq<nat>> {
    let fields = fields_of(line);
    if fields.len() >= arity && forall|i: int| 0 <= i < arity ==> is_decimal(#[trigger] fields[i]) {
        Some(Seq::new(arity, |i: int| decimal_value(fields[i])))
    } else {
        None
    }
}

/// Whether no byte of `bytes` is a newline.
pub open spec fn holds_no_newline(bytes: Seq<u8>) -> bool {
    forall|j: int| 0 <= j < bytes.len() ==> #[trigger] bytes[j] != NEWLINE
}

/// Whether `bytes` has a byte and none of its bytes is a blank.
pub open spec fn is_field(bytes: Seq<u8>) -> bool {
    bytes.len() > 0 && forall|j: int| 0 <= j < bytes.len() ==> !is_blank(#[trigger] bytes[j])
}

/// No line holds a newline, whether it is ended or still open.
pub proof fn lemma_line_scan_holds_no_newline(text: Seq<u8>)
    ensures
        forall|i: int|
            0 <= i < line_scan(text).0.len() ==> holds_no_newline(#[trigger] line_scan(text).0[i]),
        holds_no_newline(line_scan(text).1),
    decreases text.len(),
{
    if text.len() > 0 {
        let (done, current) = line_scan(text.drop_last());
        lemma_line_scan_holds_no_newline(text.drop_last());
        if text.last() == NEWLINE {
            let longer = done.push(current);
            assert forall|i: int| 0 <= i < longer.len() implies holds_no_newline(
                #[trigger] longer[i],
            ) by {
                if i < done.len() {
                    assert(longer[i] == done[i]);
                }
            }
        } else {
            let longer = current.push(text.last());
            assert forall|j: int| 0 <= j < longer.len() implies #[trigger] longer[j]
                != NEWLINE by {
                if j < current.len() {
                    assert(longer[j] == current[j]);
                }
            }
        }
    }
}

/// No line of a text holds a newline.
pub proof fn lemma_lines_hold_no_newline(text: Seq<u8>)
    ensures
        forall|i: int| 0 <= i < lines_of(text).len() ==> holds_no_newline(#[trigger] lines_of(text)[i]),
{
    lemma_line_scan_holds_no_newline(text);
    let (done, current) = line_scan(text);
    let lines = lines_of(text);
    assert forall|i: int| 0 <= i < lines.len() implies holds_no_newline(#[trigger] lines[i]) by {
        if i < done.len() {
            assert(lines[i] == done[i]);
        }
    }
}

/// The lines one after the other, each with a newline at its end.
pub open spec fn joined(lines: Seq<Seq<u8>>) -> Seq<u8>
    decreases lines.len(),
{
    if lines.len() == 0 {
        Seq::empty()
    } else {
        joined(lines.drop_last()) + lines.last().push(NEWLINE)
    }
}

/// Nothing is lost in reading lines: the ended lines with their newlines,
/// followed by the open line, are the text.
pub proof fn lemma_line_scan_rejoins(text: Seq<u8>)
    ensures
        joined(line_scan(text).0) + line_scan(text).1 == text,
    decreases text.len(),
{
    if text.len() == 0 {
        assert(joined(line_scan(text).0) + line_scan(text).1 =~= text);
    } else {
        let (done, current) = line_scan(text.drop_last());
        lemma_line_scan_rejoins(text.drop_last());
        assert(joined(done) + current == text.drop_last());
        if text.last() == NEWLINE {
            let longer = done.push(current);
            assert(longer.drop_last() =~= done);
            assert(joined(longer) + Seq::<u8>::empty() =~= (joined(done) + current).push(NEWLINE));
            assert(text.drop_last().push(NEWLINE) =~= text);
        } else {
            assert(joined(done) + current.push(text.last()) =~= (joined(done) + current).push(
                text.last(),
            ));
            assert(text.drop_last().push(text.last()) =~= text);
        }
    }
}

/// Every ended field has a byte and no blank; the open one has no blank.
pub proof fn lemma_field_scan_holds_fields(line: Seq<u8>)
    ensures
        forall|i: int|
            0 <= i < field_scan(line).0.len() ==> is_field(#[trigger] field_scan(line).0[i]),
        forall|j: int|
            0 <= j < field_scan(line).1.len() ==> !is_blank(#[trigger] field_scan(line).1[j]),
    decreases line.len(),
{
    if line.len() > 0 {
        let (done, current) = field_scan(line.drop_last());
        lemma_field_scan_holds_fields(line.drop_last());
        if is_blank(line.last()) {
            if current.len() > 0 {
                let longer = done.push(current);
                assert forall|i: int| 0 <= i < longer.len() implies is_field(
                    #[trigger] longer[i],
                ) by {
                    if i < done.len() {
                        assert(longer[i] == done[i]);
                    }
                }
            }
        } else {
            let longer = current.push(line.last());
            assert forall|j: int| 0 <= j < longer.len() implies !is_blank(
                #[trigger] longer[j],
            ) by {
                if j < current.len() {
                    assert(longer[j] == current[j]);
                }
            }
        }
    }
}

/// Every field of a line has a byte, and none holds a blank.
pub proof fn lemma_fields_are_fields(line: Seq<u8>)
    ensures
        forall|i: int| 0 <= i < fields_of(line).len() ==> is_field(#[trigger] fields_of(line)[i]),
{
    lemma_field_scan_holds_fields(line);
    let (done, current) = field_scan(line);
    let fields = fields_of(line);
    assert forall|i: int| 0 <= i < fields.len() implies is_field(#[trigger] fields[i]) by {
        if i < done.len() {
            assert(fields[i] == done[i]);
        }
    }
}

/// The byte sequences that a vector of byte vectors holds.
pub open spec fn byte_views(v: Seq<Vec<u8>>) -> Seq<Seq<u8>> {
    Seq::new(v.len(), |i: int| v[i]@)
}

/// The values of a sequence of scalars.
pub open spec fn values_of(v: Seq<Scalar>) -> Seq<nat> {
    Seq::new(v.len(), |i: int| v[i]@)
}

/// Whether a byte separates fields.
pub fn blank(b: u8) -> (r: bool)
    ensures
        r == is_blank(b),
{
    b == 32 || b == 9 || b == 11 || b == 12 || b == 13
}

/// The lines of a text.
pub fn split_lines(text: &[u8]) -> (r: Vec<Vec<u8>>)
    ensures
        byte_views(r@) == lines_of(text@),
{
    let mut done: Vec<Vec<u8>> = Vec::new();
    let mut current: Vec<u8> = Vec::new();
    let mut k: usize = 0;
    while k < text.len()
        invariant
            k <= text.len(),
            line_scan(text@.take(k as int)) == (byte_views(done@), current@),
        decreases text.len() - k,
    {
        proof {
            assert(text@.take(k + 1).drop_last() =~= text@.take(k as int));
        }
        if text[k] == NEWLINE {
            let ghost before = done@;
            done.push(current);
            proof {
                assert(byte_views(done@) =~= byte_views(before).push(current@));
            }
            current = Vec::new();
        } else {
            current.push(text[k]);
        }
        k += 1;
    }
    proof {
        assert(text@.take(text.len() as int) =~= text@);
    }
    if current.len() > 0 {
        let ghost before = done@;
        done.push(current);
        proof {
            assert(byte_views(done@) =~= byte_views(before).push(current@));
        }
    }
    done
}

/// The fields of a line.
pub fn split_fields(line: &[u8]) -> (r: Vec<Vec<u8>>)
    ensures
        byte_views(r@) == fields_of(line@),
{
    let mut done: Vec<Vec<u8>> = Vec::new();
    let mut current: Vec<u8> = Vec::new();
    let mut k: usize = 0;
    while k < line.len()
        invariant
            k <= line.len(),
            field_scan(line@.take(k as int)) == (byte_views(done@), current@),
        decreases line.len() - k,
    {
        proof {
            assert(line@.take(k + 1).drop_last() =~= line@.take(k as int));
        }
        if blank(line[k]) {
            if current.len() > 0 {
                let ghost before = done@;
                done.push(current);
                proof {
                    assert(byte_views(done@) =~= byte_views(before).push(current@));
                }
                current = Vec::new();
            }
        } else {
            current.push(line[k]);
        }
        k += 1;
    }
    proof {
        assert(line@.take(line.len() as int) =~= line@);
    }
    if current.len() > 0 {
        let ghost before = done@;
        done.push(current);
        proof {
            assert(byte_views(done@) =~= byte_views(before).push(current@));
        }
    }
    done
}

/// Reads the record of a line: the numbers of its first `arity` fields.
pub fn parse_record(line: &[u8], arity: usize) -> (r: Option<Vec<Scalar>>)
    ensures
        r is Some <==> record_of(line@, arity as nat) is Some,
        r matches Some(v) ==> Some(values_of(v@)) == record_of(line@, arity as nat),
{
    let fields = split_fields(line);
    let ghost spec_fields = fields_of(line@);
    if fields.len() < arity {
        return None;
    }
    let mut out: Vec<Scalar> = Vec::new();
    let mut k: usize = 0;
    while k < arity
        invariant
            k <= arity <= fields.len(),
            byte_views(fields@) == spec_fields,
            spec_fields == fields_of(line@),
            out.len() == k,
            forall|i: int| 0 <= i < k ==> is_decimal(#[trigger] spec_fields[i]),
            forall|i: int| 0 <= i < k ==> (#[trigger] out[i])@ == decimal_value(spec_fields[i]),
        decreases arity - k,
    {
        proof {
            assert(byte_views(fields@)[k as int] == fields@[k as int]@);
        }
        match Scalar::parse_decimal(fields[k].as_slice()) {
            Some(x) => {
                out.push(x);
            },
            None => {
                proof {
                    assert(!is_decimal(spec_fields[k as int]));
                }
                return None;
            },
        }
        k += 1;
    }
    proof {
        assert(values_of(out@) =~= Seq::new(arity as nat, |i: int| decimal_value(spec_fields[i])));
    }
    Some(out)
}

/// The number of fields in the record on line `i` of a reply that comes in
/// sections of `cells` lines each: `arities` gives it section by section.
pub open spec fn arity_at(i: int, cells: nat, arities: Seq<usize>) -> nat {
    arities[i / (cells as int)] as nat
}

/// Whether a reply has the shape that a step asks for: one section for
/// each entry of `arities`, `cells` lines to a section, and on every line
/// a record of its section's arity.
pub open spec fn reply_well_formed(text: Seq<u8>, cells: nat, arities: Seq<usize>) -> bool {
    let lines = lines_of(text);
    &&& lines.len() == cells * arities.len()
    &&& forall|i: int|
        0 <= i < lines.len() ==> record_of(#[trigger] lines[i], arity_at(i, cells, arities))
            is Some
}

/// The failure that a reply of another shape gives: the wrong number of
/// lines comes first, with the number found; else the first line without
/// a record.
pub open spec fn reply_failure(
    text: Seq<u8>,
    cells: usize,
    arities: Seq<usize>,
    e: ProtocolError,
) -> bool {
    let lines = lines_of(text);
    if lines.len() != cells * arities.len() {
        e == (ProtocolError::WrongRecordCount {
            sections: arities.len() as usize,
            cells,
            found: lines.len() as usize,
        })
    } else {
        &&& e matches ProtocolError::MalformedRecord { line }
        &&& line < lines.len()
        &&& record_of(lines[line as int], arity_at(line as int, cells as nat, arities)) is None
        &&& forall|j: int|
            0 <= j < line ==> record_of(#[trigger] lines[j], arity_at(j, cells as nat, arities))
                is Some
    }
}

/// Whether `records` holds, line by line, the records of a well-formed
/// reply.
pub open spec fn records_match(
    records: Seq<Vec<Scalar>>,
    text: Seq<u8>,
    cells: nat,
    arities: Seq<usize>,
) -> bool {
    let lines = lines_of(text);
    &&& records.len() == lines.len()
    &&& forall|i: int|
        0 <= i < records.len() ==> Some(values_of((#[trigger] records[i])@)) == record_of(
            lines[i],
            arity_at(i, cells, arities),
        )
}

/// Reads the reply of a constraint program: `arities.len()` sections of
/// `cells` lines each, every line a record of its section's arity. Any
/// other number of lines, or a line without its record, is a failure.
pub fn read_records(text: &[u8], cells: usize, arities: &[usize]) -> (r: Result<
    Vec<Vec<Scalar>>,
    ProtocolError,
>)
    ensures
        r is Ok <==> reply_well_formed(text@, cells as nat, arities@),
        r matches Ok(records) ==> records_match(records@, text@, cells as nat, arities@),
        r matches Err(e) ==> reply_failure(text@, cells, arities@, e),
{
    let lines = split_lines(text);
    let ghost spec_lines = lines_of(text@);
    let wrong = ProtocolError::WrongRecordCount {
        sections: arities.len(),
        cells,
        found: lines.len(),
    };
    proof {
        assert(byte_views(lines@).len() == lines.len());
    }
    match cells.checked_mul(arities.len()) {
        Some(expected) => {
            if lines.len() != expected {
                return Err(wrong);
            }
        },
        None => {
            return Err(wrong);
        },
    }
    let mut records: Vec<Vec<Scalar>> = Vec::new();
    let mut k: usize = 0;
    while k < lines.len()
        invariant
            k <= lines.len(),
            lines.len() == cells * arities.len(),
            byte_views(lines@) == spec_lines,
            spec_lines == lines_of(text@),
            records.len() == k,
            forall|i: int|
                0 <= i < k ==> Some(values_of((#[trigger] records[i])@)) == record_of(
                    spec_lines[i],
                    arity_at(i, cells as nat, arities@),
                ),
            forall|i: int|
                0 <= i < k ==> record_of(
                    #[trigger] spec_lines[i],
                    arity_at(i, cells as nat, arities@),
                ) is Some,
        decreases lines.len() - k,
    {
        proof {
            assert(byte_views(lines@)[k as int] == lines@[k as int]@);
            assert(cells > 0) by (nonlinear_arith)
                requires
                    k < cells * arities.len(),
            ;
            vstd::arithmetic::div_mod::lemma_multiply_divide_lt(
                k as int,
                cells as int,
                arities.len() as int,
            );
        }
        let arity = arities[k / cells];
        match parse_record(lines[k].as_slice(), arity) {
            Some(record) => {
                records.push(record);
            },
            None => {
                return Err(ProtocolError::MalformedRecord { line: k });
            },
        }
        k += 1;
    }
    Ok(records)
}

} // verus!
